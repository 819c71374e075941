use vstd::prelude::*;
use crate::metrics::MetricKind;
use crate::text::push_str;

verus! {

/// The check marks of the `Display` submenu.
#[derive(Clone, Copy, Debug, PartialEq, Eq, Structural)]
pub struct DisplayChecks {
    pub cpu: bool,
    pub memory: bool,
    pub gpu: bool,
    pub npu: bool,
    pub network: bool,
}

/// The metrics checked in the menu, in menu order: CPU, memory, GPU, NPU, network.
pub open spec fn checked_metrics(c: DisplayChecks) -> Seq<MetricKind> {
    (if c.cpu { seq![MetricKind::Cpu] } else { seq![] }) + (if c.memory {
        seq![MetricKind::Memory]
    } else {
        seq![]
    }) + (if c.gpu { seq![MetricKind::Gpu] } else { seq![] }) + (if c.npu {
        seq![MetricKind::Npu]
    } else {
        seq![]
    }) + (if c.network { seq![MetricKind::Network] } else { seq![] })
}

/// The check marks that show a list of enabled metrics.
pub open spec fn checks_of(enabled: Seq<MetricKind>) -> DisplayChecks {
    DisplayChecks {
        cpu: enabled.contains(MetricKind::Cpu),
        memory: enabled.contains(MetricKind::Memory),
        gpu: enabled.contains(MetricKind::Gpu),
        npu: enabled.contains(MetricKind::Npu),
        network: enabled.contains(MetricKind::Network),
    }
}

/// The position of a metric in the `Display` submenu.
pub open spec fn menu_rank(kind: MetricKind) -> int {
    match kind {
        MetricKind::Cpu => 0,
        MetricKind::Memory => 1,
        MetricKind::Gpu => 2,
        MetricKind::Npu => 3,
        MetricKind::Network => 4,
    }
}

/// Whether `kinds` follow the menu order, each at most once.
pub open spec fn in_menu_order(kinds: Seq<MetricKind>) -> bool {
    forall|i: int, j: int| 0 <= i < j < kinds.len() ==> menu_rank(kinds[i]) < menu_rank(kinds[j])
}

/// Saving the `Display` checks and building the menu again from the saved metrics gives
/// back the same checks.
pub proof fn lemma_checks_survive_saving(checks: DisplayChecks)
    ensures
        checks_of(checked_metrics(checks)) == checks,
{
    let s = checked_metrics(checks);
    let kinds = seq![
        MetricKind::Cpu,
        MetricKind::Memory,
        MetricKind::Gpu,
        MetricKind::Npu,
        MetricKind::Network,
    ];
    assert forall|k: MetricKind| s.contains(k) <==> (match k {
        MetricKind::Cpu => checks.cpu,
        MetricKind::Memory => checks.memory,
        MetricKind::Gpu => checks.gpu,
        MetricKind::Npu => checks.npu,
        MetricKind::Network => checks.network,
    }) by {
        if s.contains(k) {
            let i = choose|i: int| 0 <= i < s.len() && s[i] == k;
            assert(s[i] == k);
        }
        let a = if checks.cpu { seq![MetricKind::Cpu] } else { seq![] };
        let b = if checks.memory { seq![MetricKind::Memory] } else { seq![] };
        let c = if checks.gpu { seq![MetricKind::Gpu] } else { seq![] };
        let d = if checks.npu { seq![MetricKind::Npu] } else { seq![] };
        let e = if checks.network { seq![MetricKind::Network] } else { seq![] };
        assert(s == a + b + c + d + e);
        match k {
            MetricKind::Cpu => if checks.cpu { assert(s[0] == k); },
            MetricKind::Memory => if checks.memory { assert(s[a.len() as int] == k); },
            MetricKind::Gpu => if checks.gpu { assert(s[(a.len() + b.len()) as int] == k); },
            MetricKind::Npu => if checks.npu {
                assert(s[(a.len() + b.len() + c.len()) as int] == k);
            },
            MetricKind::Network => if checks.network {
                assert(s[(a.len() + b.len() + c.len() + d.len()) as int] == k);
            },
        }
    }
    assert(s.contains(MetricKind::Cpu) == checks.cpu);
    assert(s.contains(MetricKind::Memory) == checks.memory);
    assert(s.contains(MetricKind::Gpu) == checks.gpu);
    assert(s.contains(MetricKind::Npu) == checks.npu);
    assert(s.contains(MetricKind::Network) == checks.network);
}

/// The metrics saved from the menu are in menu order, each at most once, and a list of
/// enabled metrics shown in the menu and saved again keeps exactly its metrics.
pub proof fn lemma_menu_keeps_metrics(enabled: Seq<MetricKind>)
    ensures
        in_menu_order(checked_metrics(checks_of(enabled))),
        forall|k: MetricKind| #[trigger] checked_metrics(checks_of(enabled)).contains(k) <==> enabled.contains(k),
{
    let c = checks_of(enabled);
    lemma_checks_survive_saving(c);
    let s = checked_metrics(c);
    assert forall|k: MetricKind| #[trigger] s.contains(k) <==> enabled.contains(k) by {
        match k {
            MetricKind::Cpu => {},
            MetricKind::Memory => {},
            MetricKind::Gpu => {},
            MetricKind::Npu => {},
            MetricKind::Network => {},
        }
    }
    let a = if c.cpu { seq![MetricKind::Cpu] } else { seq![] };
    let b = if c.memory { seq![MetricKind::Memory] } else { seq![] };
    let d = if c.gpu { seq![MetricKind::Gpu] } else { seq![] };
    let e = if c.npu { seq![MetricKind::Npu] } else { seq![] };
    let f = if c.network { seq![MetricKind::Network] } else { seq![] };
    assert(s == a + b + d + e + f);
    assert forall|i: int, j: int| 0 <= i < j < s.len() implies menu_rank(s[i]) < menu_rank(s[j]) by {
        let n1 = a.len() as int;
        let n2 = n1 + b.len();
        let n3 = n2 + d.len();
        let n4 = n3 + e.len();
        assert(forall|t: int| 0 <= t < n1 ==> menu_rank(#[trigger] s[t]) == 0);
        assert(forall|t: int| n1 <= t < n2 ==> menu_rank(#[trigger] s[t]) == 1);
        assert(forall|t: int| n2 <= t < n3 ==> menu_rank(#[trigger] s[t]) == 2);
        assert(forall|t: int| n3 <= t < n4 ==> menu_rank(#[trigger] s[t]) == 3);
        assert(forall|t: int| n4 <= t < s.len() ==> menu_rank(#[trigger] s[t]) == 4);
    }
}

/// The enabled metrics that the checked menu items stand for, in menu order.
pub fn enabled_metrics_from_checks(checks: DisplayChecks) -> (res: Vec<MetricKind>)
    ensures
        res@ == checked_metrics(checks),
{
    let mut enabled_metrics: Vec<MetricKind> = Vec::new();
    if checks.cpu {
        enabled_metrics.push(MetricKind::Cpu);
    }
    if checks.memory {
        enabled_metrics.push(MetricKind::Memory);
    }
    if checks.gpu {
        enabled_metrics.push(MetricKind::Gpu);
    }
    if checks.npu {
        enabled_metrics.push(MetricKind::Npu);
    }
    if checks.network {
        enabled_metrics.push(MetricKind::Network);
    }
    assert(enabled_metrics@ =~= checked_metrics(checks));
    enabled_metrics
}

fn contains_kind(v: &Vec<MetricKind>, kind: MetricKind) -> (res: bool)
    ensures
        res == v@.contains(kind),
{
    let mut i: usize = 0;
    while i < v.len()
        invariant
            i <= v@.len(),
            forall|k: int| 0 <= k < i ==> v@[k] != kind,
        decreases v@.len() - i,
    {
        if v[i] == kind {
            return true;
        }
        i = i + 1;
    }
    false
}

/// The check marks the `Display` submenu starts with.
pub fn display_checks(enabled_metrics: &Vec<MetricKind>) -> (res: DisplayChecks)
    ensures
        res == checks_of(enabled_metrics@),
{
    DisplayChecks {
        cpu: contains_kind(enabled_metrics, MetricKind::Cpu),
        memory: contains_kind(enabled_metrics, MetricKind::Memory),
        gpu: contains_kind(enabled_metrics, MetricKind::Gpu),
        npu: contains_kind(enabled_metrics, MetricKind::Npu),
        network: contains_kind(enabled_metrics, MetricKind::Network),
    }
}

/// What the tray shows after a startup toggle, and where the check mark ends up.
pub struct AutostartOutcome {
    pub status: String,
    pub checked: bool,
}

/// The tray's answer to toggling `Start with Windows` to `enabled`: the new state on
/// success, else the error's message, with the check mark put back.
pub fn autostart_outcome(enabled: bool, error: Option<&str>) -> (res: AutostartOutcome)
    ensures
        match error {
            None => {
                &&& res.checked == enabled
                &&& res.status@ == (if enabled {
                    "Startup enabled"@
                } else {
                    "Startup disabled"@
                })
            },
            Some(message) => {
                &&& res.checked == !enabled
                &&& res.status@ == "Startup update failed: "@ + message@
            },
        },
{
    let mut status = String::new();
    match error {
        None => {
            if enabled {
                push_str(&mut status, "Startup enabled");
            } else {
                push_str(&mut status, "Startup disabled");
            }
            AutostartOutcome { status, checked: enabled }
        },
        Some(message) => {
            push_str(&mut status, "Startup update failed: ");
            push_str(&mut status, message);
            AutostartOutcome { status, checked: !enabled }
        },
    }
}

/// What the tray shows after saving the `Display` checks, and whether the new settings
/// replace the running ones.
pub struct DisplaySaveOutcome {
    pub status: String,
    pub adopt: bool,
}

/// The tray's answer to saving the `Display` checks: on success the new settings take
/// over and the tray says so; on failure the running settings stay and the tray shows
/// the error's message.
pub fn display_save_outcome(error: Option<&str>) -> (res: DisplaySaveOutcome)
    ensures
        match error {
            None => res.adopt && res.status@ == "Display settings saved"@,
            Some(message) => !res.adopt && res.status@ == "Config save failed: "@ + message@,
        },
{
    let mut status = String::new();
    match error {
        None => {
            push_str(&mut status, "Display settings saved");
            DisplaySaveOutcome { status, adopt: true }
        },
        Some(message) => {
            push_str(&mut status, "Config save failed: ");
            push_str(&mut status, message);
            DisplaySaveOutcome { status, adopt: false }
        },
    }
}

} // verus!
