use vstd::prelude::*;
use crate::text::{decimal, push_decimal, push_str, to_wide, utf16};

verus! {

/// The name of the value under the per-user Run key.
pub const APP_RUN_VALUE: &'static str = "RustGauge";

/// The per-user Run key, under `HKEY_CURRENT_USER`.
pub const RUN_KEY: &'static str = "Software\\Microsoft\\Windows\\CurrentVersion\\Run";

/// The registry status of success.
pub const ERROR_SUCCESS: u32 = 0;

/// The registry status of a value that does not exist.
pub const ERROR_FILE_NOT_FOUND: u32 = 2;

/// Why startup registration failed; registry failures carry the status code.
#[derive(Clone, Copy, Debug, PartialEq, Eq, Structural)]
pub enum AutostartError {
    /// This platform has no per-user Run key.
    Unsupported,
    OpenKey(u32),
    Query(u32),
    Write(u32),
    Delete(u32),
}

/// The message of an error, as the tray shows it.
pub open spec fn error_message(e: AutostartError) -> Seq<char> {
    match e {
        AutostartError::Unsupported => "startup registration is only supported on Windows"@,
        AutostartError::OpenKey(c) => "failed to open startup registry key: "@ + decimal(c as nat),
        AutostartError::Query(c) => "failed to query startup registry value: "@ + decimal(c as nat),
        AutostartError::Write(c) => "failed to write startup registry value: "@ + decimal(c as nat),
        AutostartError::Delete(c) => "failed to delete startup registry value: "@ + decimal(
            c as nat,
        ),
    }
}

impl AutostartError {
    /// The message of this error.
    pub fn message(&self) -> (res: String)
        ensures
            res@ == error_message(*self),
    {
        let mut s = String::new();
        match *self {
            AutostartError::Unsupported => {
                push_str(&mut s, "startup registration is only supported on Windows");
            },
            AutostartError::OpenKey(c) => {
                push_str(&mut s, "failed to open startup registry key: ");
                push_decimal(&mut s, c as u64);
            },
            AutostartError::Query(c) => {
                push_str(&mut s, "failed to query startup registry value: ");
                push_decimal(&mut s, c as u64);
            },
            AutostartError::Write(c) => {
                push_str(&mut s, "failed to write startup registry value: ");
                push_decimal(&mut s, c as u64);
            },
            AutostartError::Delete(c) => {
                push_str(&mut s, "failed to delete startup registry value: ");
                push_decimal(&mut s, c as u64);
            },
        }
        s
    }
}

/// Whether the monitor starts with the session, on a platform without a per-user Run
/// key: it never does.
pub fn is_enabled() -> (res: Result<bool, AutostartError>)
    ensures
        res == Ok::<bool, AutostartError>(false),
{
    Ok(false)
}

/// Registers or unregisters the monitor for startup, on a platform without a per-user
/// Run key: that always fails.
pub fn set_enabled(enabled: bool) -> (res: Result<(), AutostartError>)
    ensures
        res == Err::<(), AutostartError>(AutostartError::Unsupported),
{
    Err(AutostartError::Unsupported)
}

/// The outcome of opening the Run key with the status the registry returned.
pub fn open_key_result(status: u32) -> (res: Result<(), AutostartError>)
    ensures
        res == (if status == ERROR_SUCCESS {
            Ok::<(), AutostartError>(())
        } else {
            Err(AutostartError::OpenKey(status))
        }),
{
    if status == ERROR_SUCCESS {
        Ok(())
    } else {
        Err(AutostartError::OpenKey(status))
    }
}

/// Whether the monitor is registered, from the status of querying its Run value: the
/// value exists, or it does not, or the query failed.
pub fn query_result(status: u32) -> (res: Result<bool, AutostartError>)
    ensures
        res == (if status == ERROR_SUCCESS {
            Ok::<bool, AutostartError>(true)
        } else if status == ERROR_FILE_NOT_FOUND {
            Ok(false)
        } else {
            Err(AutostartError::Query(status))
        }),
{
    if status == ERROR_SUCCESS {
        Ok(true)
    } else if status == ERROR_FILE_NOT_FOUND {
        Ok(false)
    } else {
        Err(AutostartError::Query(status))
    }
}

/// The outcome of writing the Run value.
pub fn write_result(status: u32) -> (res: Result<(), AutostartError>)
    ensures
        res == (if status == ERROR_SUCCESS {
            Ok::<(), AutostartError>(())
        } else {
            Err(AutostartError::Write(status))
        }),
{
    if status == ERROR_SUCCESS {
        Ok(())
    } else {
        Err(AutostartError::Write(status))
    }
}

/// The outcome of deleting the Run value with registry status `status`: a value that
/// was not there is no failure.
pub open spec fn delete_outcome(status: u32) -> Result<(), AutostartError> {
    if status == ERROR_SUCCESS || status == ERROR_FILE_NOT_FOUND {
        Ok(())
    } else {
        Err(AutostartError::Delete(status))
    }
}

/// The outcome of deleting the Run value.
pub fn delete_result(status: u32) -> (res: Result<(), AutostartError>)
    ensures
        res == delete_outcome(status),
{
    if status == ERROR_SUCCESS || status == ERROR_FILE_NOT_FOUND {
        Ok(())
    } else {
        Err(AutostartError::Delete(status))
    }
}

/// Unregistering succeeds both when the Run value is deleted and when it was already
/// gone, so unregistering twice succeeds twice; any other status is reported. Which
/// status a deletion returns, and what the key holds afterwards, is up to the registry.
pub proof fn lemma_unregister_is_repeatable()
    ensures
        delete_outcome(ERROR_SUCCESS) is Ok,
        delete_outcome(ERROR_FILE_NOT_FOUND) is Ok,
        forall|status: u32|
            status != ERROR_SUCCESS && status != ERROR_FILE_NOT_FOUND ==> #[trigger] delete_outcome(
                status,
            ) == Err::<(), AutostartError>(AutostartError::Delete(status)),
{
}

/// The command line that starts the executable at `exe_path`: the path in double quotes.
pub fn startup_command(exe_path: &str) -> (res: String)
    ensures
        res@ == seq!['"'] + exe_path@ + seq!['"'],
{
    let mut s = String::new();
    push_str(&mut s, "\"");
    push_str(&mut s, exe_path);
    push_str(&mut s, "\"");
    proof {
        reveal_strlit("\"");
    }
    s
}

/// The bytes of UTF-16 code units, each little-endian, as a `REG_SZ` value holds them.
pub open spec fn le_bytes(units: Seq<u16>) -> Seq<u8>
    decreases units.len(),
{
    if units.len() == 0 {
        seq![]
    } else {
        le_bytes(units.drop_last()) + seq![
            (units.last() % 0x100) as u8,
            (units.last() / 0x100) as u8,
        ]
    }
}

/// The `REG_SZ` bytes are the code units in order, two bytes each, low byte first: read
/// back as little-endian words they give the code units again.
pub proof fn lemma_le_bytes_decode(units: Seq<u16>)
    ensures
        le_bytes(units).len() == 2 * units.len(),
        forall|i: int|
            0 <= i < units.len() ==> le_bytes(units)[2 * i] + 256 * le_bytes(units)[2 * i + 1]
                == #[trigger] units[i],
    decreases units.len(),
{
    if units.len() > 0 {
        let rest = units.drop_last();
        lemma_le_bytes_decode(rest);
        let b = le_bytes(units);
        assert forall|i: int| 0 <= i < units.len() implies b[2 * i] + 256 * b[2 * i + 1]
            == #[trigger] units[i] by {
            if i < rest.len() {
                assert(b[2 * i] == le_bytes(rest)[2 * i]);
                assert(b[2 * i + 1] == le_bytes(rest)[2 * i + 1]);
                assert(rest[i] == units[i]);
            } else {
                assert(units[i] == units.last());
            }
        }
    }
}

/// What registering or unregistering asks of the registry.
pub enum StartupRequest {
    /// Set the Run value `value_name` to the `REG_SZ` bytes `data`.
    Register { value_name: Vec<u16>, data: Vec<u8> },
    /// Delete the Run value `value_name`.
    Unregister { value_name: Vec<u16> },
}

/// The registry change that registers (with the command that starts `exe_path`) or
/// unregisters the monitor. Names and data are zero-terminated UTF-16.
pub fn startup_request(enabled: bool, exe_path: &str) -> (res: StartupRequest)
    ensures
        match res {
            StartupRequest::Register { value_name, data } => {
                &&& enabled
                &&& value_name@ == utf16(APP_RUN_VALUE@).push(0u16)
                &&& data@ == le_bytes(
                    utf16(seq!['"'] + exe_path@ + seq!['"']).push(0u16),
                )
            },
            StartupRequest::Unregister { value_name } => {
                &&& !enabled
                &&& value_name@ == utf16(APP_RUN_VALUE@).push(0u16)
            },
        },
{
    let value_name = to_wide(APP_RUN_VALUE);
    if enabled {
        let command = startup_command(exe_path);
        let wide = to_wide(command.as_str());
        let mut data: Vec<u8> = Vec::new();
        let mut i: usize = 0;
        assert(wide@.take(0) =~= Seq::<u16>::empty());
        while i < wide.len()
            invariant
                i <= wide@.len(),
                data@ == le_bytes(wide@.take(i as int)),
            decreases wide@.len() - i,
        {
            let unit = wide[i];
            assert(wide@.take(i + 1).drop_last() =~= wide@.take(i as int));
            data.push((unit % 0x100) as u8);
            data.push((unit / 0x100) as u8);
            assert(data@ =~= le_bytes(wide@.take(i + 1)));
            i = i + 1;
        }
        assert(wide@.take(wide@.len() as int) =~= wide@);
        StartupRequest::Register { value_name, data }
    } else {
        StartupRequest::Unregister { value_name }
    }
}

} // verus!
