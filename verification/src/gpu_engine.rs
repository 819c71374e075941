use vstd::prelude::*;
use crate::text::{
    ascii_lower, ascii_lowercase_from, chars_of, find_chars, find_from, lemma_find_from_first,
    occurs_at, occurs_at_index,
    string_of_range,
};

verus! {

/// The adapter id in a `GPU Engine` counter instance name: the text between the first
/// `_luid_` and the first `_phys_` after it.
pub open spec fn luid_of(name: Seq<char>) -> Option<Seq<char>> {
    match find_from(name, "_luid_"@, 0) {
        None => None,
        Some(a) => {
            let start = a + "_luid_"@.len();
            match find_from(name, "_phys_"@, start) {
                None => None,
                Some(end) => Some(name.subrange(start as int, end as int)),
            }
        },
    }
}

/// The engine type in an instance name: everything after the first `_engtype_`, in ASCII
/// lower case.
pub open spec fn engine_type_of(name: Seq<char>) -> Option<Seq<char>> {
    match find_from(name, "_engtype_"@, 0) {
        None => None,
        Some(a) => Some(
            name.skip((a + "_engtype_"@.len()) as int).map_values(|c: char| ascii_lower(c)),
        ),
    }
}

/// The engine type of an instance name, empty where it names none.
pub open spec fn engine_kind(name: Seq<char>) -> Seq<char> {
    match engine_type_of(name) {
        Some(t) => t,
        None => seq![],
    }
}

/// Whether an engine type is a compute engine: it starts with `compute`.
pub open spec fn is_compute(engine_type: Seq<char>) -> bool {
    occurs_at(engine_type, "compute"@, 0)
}

/// Whether an engine type counts against an adapter being compute-only: it is named
/// and not a compute engine.
pub open spec fn is_other_engine(engine_type: Seq<char>) -> bool {
    engine_type.len() > 0 && !is_compute(engine_type)
}

/// The adapter ids of `names`, each once, in the order of first appearance.
pub open spec fn seen_luids(names: Seq<Seq<char>>) -> Seq<Seq<char>>
    decreases names.len(),
{
    if names.len() == 0 {
        seq![]
    } else {
        let before = seen_luids(names.drop_last());
        match luid_of(names.last()) {
            Some(l) => if before.contains(l) {
                before
            } else {
                before.push(l)
            },
            None => before,
        }
    }
}

/// Whether some instance of adapter `l` in `names` is a compute engine.
pub open spec fn has_compute_engine(names: Seq<Seq<char>>, l: Seq<char>) -> bool
    decreases names.len(),
{
    if names.len() == 0 {
        false
    } else {
        has_compute_engine(names.drop_last(), l) || (luid_of(names.last()) == Some(l)
            && is_compute(engine_kind(names.last())))
    }
}

/// Whether some instance of adapter `l` in `names` is a named engine other than compute.
pub open spec fn has_other_engine(names: Seq<Seq<char>>, l: Seq<char>) -> bool
    decreases names.len(),
{
    if names.len() == 0 {
        false
    } else {
        has_other_engine(names.drop_last(), l) || (luid_of(names.last()) == Some(l)
            && is_other_engine(engine_kind(names.last())))
    }
}

/// Whether adapter `l` has compute engines and no other named engines in `names`.
pub open spec fn is_compute_only(names: Seq<Seq<char>>, l: Seq<char>) -> bool {
    has_compute_engine(names, l) && !has_other_engine(names, l)
}

/// The members of `luids` that are compute-only adapters in `names`, in order.
pub open spec fn keep_compute_only(luids: Seq<Seq<char>>, names: Seq<Seq<char>>) -> Seq<Seq<char>>
    decreases luids.len(),
{
    if luids.len() == 0 {
        seq![]
    } else {
        keep_compute_only(luids.drop_last(), names) + (if is_compute_only(names, luids.last()) {
            seq![luids.last()]
        } else {
            seq![]
        })
    }
}

/// The adapters of `names` that only have compute engines (the NPUs), in the order of
/// first appearance.
pub open spec fn compute_only(names: Seq<Seq<char>>) -> Seq<Seq<char>> {
    keep_compute_only(seen_luids(names), names)
}

/// The contents of a list of strings.
pub open spec fn texts(v: Seq<String>) -> Seq<Seq<char>> {
    v.map_values(|s: String| s@)
}

/// The adapter id in an instance name.
pub fn extract_luid(name: &str) -> (res: Option<String>)
    ensures
        match res {
            Some(s) => luid_of(name@) == Some(s@),
            None => luid_of(name@) is None,
        },
{
    let cs = chars_of(name);
    let luid_tag = chars_of("_luid_");
    let phys_tag = chars_of("_phys_");
    proof {
        reveal_strlit("_luid_");
        reveal_strlit("_phys_");
    }
    let a = match find_chars(&cs, &luid_tag, 0) {
        Some(a) => a,
        None => return None,
    };
    let n = cs.len();
    assert(a + luid_tag@.len() <= n);
    let start = a + luid_tag.len();
    let end = match find_chars(&cs, &phys_tag, start) {
        Some(e) => e,
        None => return None,
    };
    Some(string_of_range(&cs, start, end))
}

/// The engine type in an instance name, in ASCII lower case.
pub fn extract_engine_type(name: &str) -> (res: Option<String>)
    ensures
        match res {
            Some(s) => engine_type_of(name@) == Some(s@),
            None => engine_type_of(name@) is None,
        },
{
    let cs = chars_of(name);
    let tag = chars_of("_engtype_");
    proof {
        reveal_strlit("_engtype_");
    }
    let a = match find_chars(&cs, &tag, 0) {
        Some(a) => a,
        None => return None,
    };
    let n = cs.len();
    assert(a + tag@.len() <= n);
    Some(ascii_lowercase_from(&cs, a + tag.len()))
}

/// The engines seen so far for one adapter.
pub struct LuidGroup {
    pub luid: String,
    pub has_compute: bool,
    pub has_non_compute: bool,
}

impl LuidGroup {
    /// Records one engine of this adapter: a compute engine, or another named one.
    pub fn add_engine_type(&mut self, engine_type: &str)
        ensures
            final(self).luid == old(self).luid,
            final(self).has_compute == (old(self).has_compute || is_compute(engine_type@)),
            final(self).has_non_compute == (old(self).has_non_compute || is_other_engine(
                engine_type@,
            )),
    {
        let cs = chars_of(engine_type);
        let compute = chars_of("compute");
        if occurs_at_index(&cs, &compute, 0) {
            self.has_compute = true;
        } else if cs.len() != 0 {
            self.has_non_compute = true;
        }
    }
}

proof fn lemma_seen_distinct(names: Seq<Seq<char>>)
    ensures
        forall|a: int, b: int|
            0 <= a < b < seen_luids(names).len() ==> seen_luids(names)[a] != seen_luids(names)[b],
    decreases names.len(),
{
    if names.len() > 0 {
        let before = seen_luids(names.drop_last());
        lemma_seen_distinct(names.drop_last());
        if let Some(l) = luid_of(names.last()) {
            if !before.contains(l) {
                assert forall|a: int, b: int|
                    0 <= a < b < seen_luids(names).len() implies seen_luids(names)[a] != seen_luids(
                        names,
                    )[b] by {
                    if b == before.len() {
                        assert(before[a] == seen_luids(names)[a]);
                    } else {
                        assert(seen_luids(names)[a] == before[a]);
                        assert(seen_luids(names)[b] == before[b]);
                    }
                }
            }
        }
    }
}

/// An adapter with any engine in `names` is among the adapters seen in `names`.
proof fn lemma_engine_seen(names: Seq<Seq<char>>, l: Seq<char>)
    ensures
        has_compute_engine(names, l) ==> seen_luids(names).contains(l),
        has_other_engine(names, l) ==> seen_luids(names).contains(l),
    decreases names.len(),
{
    if names.len() > 0 {
        let before = seen_luids(names.drop_last());
        lemma_engine_seen(names.drop_last(), l);
        if before.contains(l) {
            let k = choose|k: int| 0 <= k < before.len() && before[k] == l;
            assert(seen_luids(names)[k] == l);
        }
        if luid_of(names.last()) == Some(l) && !before.contains(l) {
            assert(seen_luids(names)[before.len() as int] == l);
        }
    }
}

/// The index of the group of adapter `l`, if there is one.
fn find_group(groups: &Vec<LuidGroup>, l: &String) -> (res: Option<usize>)
    ensures
        match res {
            Some(g) => g < groups@.len() && groups@[g as int].luid@ == l@,
            None => forall|g: int| 0 <= g < groups@.len() ==> (#[trigger] groups@[g]).luid@ != l@,
        },
{
    let mut g: usize = 0;
    while g < groups.len()
        invariant
            g <= groups@.len(),
            forall|k: int| 0 <= k < g ==> (#[trigger] groups@[k]).luid@ != l@,
        decreases groups@.len() - g,
    {
        if groups[g].luid == *l {
            return Some(g);
        }
        g = g + 1;
    }
    None
}

/// The adapters that only have compute engines, which is how an NPU shows among the
/// GPU engine counters, in the order in which they first appear.
pub fn compute_only_luids(names: &Vec<String>) -> (res: Vec<String>)
    ensures
        texts(res@) == compute_only(texts(names@)),
{
    let ghost all = texts(names@);
    let mut groups: Vec<LuidGroup> = Vec::new();
    let mut i: usize = 0;
    assert(all.take(0) =~= Seq::<Seq<char>>::empty());
    while i < names.len()
        invariant
            i <= names@.len(),
            all == texts(names@),
            groups@.len() == seen_luids(all.take(i as int)).len(),
            forall|g: int|
                0 <= g < groups@.len() ==> {
                    &&& (#[trigger] groups@[g]).luid@ == seen_luids(all.take(i as int))[g]
                    &&& groups@[g].has_compute == has_compute_engine(
                        all.take(i as int),
                        seen_luids(all.take(i as int))[g],
                    )
                    &&& groups@[g].has_non_compute == has_other_engine(
                        all.take(i as int),
                        seen_luids(all.take(i as int))[g],
                    )
                },
        decreases names@.len() - i,
    {
        let ghost before = all.take(i as int);
        let ghost after = all.take(i + 1);
        assert(after.drop_last() =~= before);
        assert(after.last() == names@[i as int]@);
        proof {
            lemma_seen_distinct(before);
        }
        let name = names[i].as_str();
        match extract_luid(name) {
            None => {
                assert forall|g: int| 0 <= g < groups@.len() implies {
                    &&& (#[trigger] groups@[g]).luid@ == seen_luids(after)[g]
                    &&& groups@[g].has_compute == has_compute_engine(after, seen_luids(after)[g])
                    &&& groups@[g].has_non_compute == has_other_engine(after, seen_luids(after)[g])
                } by {}
            },
            Some(luid) => {
                let engine_type = match extract_engine_type(name) {
                    Some(t) => t,
                    None => String::new(),
                };
                assert(engine_type@ == engine_kind(names@[i as int]@));
                let ghost old_groups = groups@;
                match find_group(&groups, &luid) {
                    Some(g) => {
                        let mut updated = LuidGroup {
                            luid,
                            has_compute: groups[g].has_compute,
                            has_non_compute: groups[g].has_non_compute,
                        };
                        updated.add_engine_type(engine_type.as_str());
                        groups.set(g, updated);
                        assert(seen_luids(before).contains(seen_luids(before)[g as int]));
                        assert(seen_luids(after) == seen_luids(before));
                        assert forall|k: int| 0 <= k < groups@.len() implies {
                            &&& (#[trigger] groups@[k]).luid@ == seen_luids(after)[k]
                            &&& groups@[k].has_compute == has_compute_engine(after, seen_luids(after)[k])
                            &&& groups@[k].has_non_compute == has_other_engine(after, seen_luids(after)[k])
                        } by {
                            if k != g {
                                assert(seen_luids(before)[k] != seen_luids(before)[g as int]);
                            }
                        }
                    },
                    None => {
                        let mut fresh = LuidGroup { luid, has_compute: false, has_non_compute: false };
                        fresh.add_engine_type(engine_type.as_str());
                        groups.push(fresh);
                        assert(!seen_luids(before).contains(fresh.luid@)) by {
                            if seen_luids(before).contains(fresh.luid@) {
                                let k = choose|k: int| 0 <= k < seen_luids(before).len() && seen_luids(before)[k] == fresh.luid@;
                                assert(old_groups[k].luid@ != fresh.luid@);
                            }
                        }
                        assert(seen_luids(after) == seen_luids(before).push(fresh.luid@));
                        proof {
                            lemma_engine_seen(before, fresh.luid@);
                        }
                        assert forall|k: int| 0 <= k < groups@.len() implies {
                            &&& (#[trigger] groups@[k]).luid@ == seen_luids(after)[k]
                            &&& groups@[k].has_compute == has_compute_engine(after, seen_luids(after)[k])
                            &&& groups@[k].has_non_compute == has_other_engine(after, seen_luids(after)[k])
                        } by {
                            if k < old_groups.len() {
                                assert(groups@[k] == old_groups[k]);
                                assert(seen_luids(after)[k] == seen_luids(before)[k]);
                                assert(seen_luids(before)[k] != fresh.luid@) by {
                                    assert(old_groups[k].luid@ != fresh.luid@);
                                }
                            } else {
                                assert(seen_luids(after)[k] == fresh.luid@);
                            }
                        }
                    },
                }
            },
        }
        i = i + 1;
    }
    assert(all.take(names@.len() as int) =~= all);
    let ghost seen = seen_luids(all);
    let mut res: Vec<String> = Vec::new();
    let mut g: usize = 0;
    assert(seen.take(0) =~= Seq::<Seq<char>>::empty());
    while g < groups.len()
        invariant
            g <= groups@.len(),
            groups@.len() == seen.len(),
            forall|k: int|
                0 <= k < groups@.len() ==> {
                    &&& (#[trigger] groups@[k]).luid@ == seen[k]
                    &&& groups@[k].has_compute == has_compute_engine(all, seen[k])
                    &&& groups@[k].has_non_compute == has_other_engine(all, seen[k])
                },
            texts(res@) == keep_compute_only(seen.take(g as int), all),
        decreases groups@.len() - g,
    {
        assert(seen.take(g + 1).drop_last() =~= seen.take(g as int));
        assert(seen.take(g + 1).last() == seen[g as int]);
        if groups[g].has_compute && !groups[g].has_non_compute {
            let luid = groups[g].luid.clone();
            res.push(luid);
        }
        assert(texts(res@) =~= keep_compute_only(seen.take(g + 1), all));
        g = g + 1;
    }
    assert(seen.take(seen.len() as int) =~= seen);
    res
}

/// Whether the engine named `name` belongs to an NPU among `npu_luids`.
pub open spec fn on_npu(name: Seq<char>, npu_luids: Seq<Seq<char>>) -> bool {
    match luid_of(name) {
        Some(l) => npu_luids.contains(l),
        None => false,
    }
}

/// How the GPU engine samples of one refresh split between GPU and NPU.
pub struct EngineSplit {
    /// Whether engine `i` is summed into the NPU's usage (else into the GPU's).
    pub on_npu: Vec<bool>,
    /// Whether any NPU exists, which is whether an NPU usage is reported at all.
    pub has_npu: bool,
}

fn contains_string(v: &Vec<String>, s: &String) -> (res: bool)
    ensures
        res == texts(v@).contains(s@),
{
    let mut i: usize = 0;
    while i < v.len()
        invariant
            i <= v@.len(),
            forall|k: int| 0 <= k < i ==> v@[k]@ != s@,
        decreases v@.len() - i,
    {
        if v[i] == *s {
            assert(texts(v@)[i as int] == s@);
            return true;
        }
        i = i + 1;
    }
    assert forall|k: int| 0 <= k < texts(v@).len() implies texts(v@)[k] != s@ by {
        assert(texts(v@)[k] == v@[k]@);
    }
    false
}

/// Sorts the engines of a refresh: those of a compute-only adapter count as NPU, all
/// others (those without an adapter id too) as GPU.
pub fn split_engines(names: &Vec<String>) -> (res: EngineSplit)
    ensures
        res.on_npu@.len() == names@.len(),
        forall|i: int|
            0 <= i < names@.len() ==> res.on_npu@[i] == on_npu(
                #[trigger] names@[i]@,
                compute_only(texts(names@)),
            ),
        res.has_npu == (compute_only(texts(names@)).len() > 0),
{
    let npu_luids = compute_only_luids(names);
    let mut on_npu_flags: Vec<bool> = Vec::new();
    let mut i: usize = 0;
    while i < names.len()
        invariant
            i <= names@.len(),
            texts(npu_luids@) == compute_only(texts(names@)),
            on_npu_flags@.len() == i,
            forall|k: int|
                0 <= k < i ==> on_npu_flags@[k] == on_npu(
                    #[trigger] names@[k]@,
                    compute_only(texts(names@)),
                ),
        decreases names@.len() - i,
    {
        let flag = match extract_luid(names[i].as_str()) {
            Some(l) => contains_string(&npu_luids, &l),
            None => false,
        };
        on_npu_flags.push(flag);
        i = i + 1;
    }
    assert(texts(npu_luids@).len() == npu_luids@.len());
    EngineSplit { on_npu: on_npu_flags, has_npu: npu_luids.len() > 0 }
}

proof fn lemma_kept_from(luids: Seq<Seq<char>>, names: Seq<Seq<char>>)
    ensures
        forall|i: int|
            0 <= i < keep_compute_only(luids, names).len() ==> luids.contains(
                #[trigger] keep_compute_only(luids, names)[i],
            ),
    decreases luids.len(),
{
    if luids.len() > 0 {
        lemma_kept_from(luids.drop_last(), names);
        let before = keep_compute_only(luids.drop_last(), names);
        assert forall|i: int|
            0 <= i < keep_compute_only(luids, names).len() implies luids.contains(
            #[trigger] keep_compute_only(luids, names)[i],
        ) by {
            if i < before.len() {
                assert(keep_compute_only(luids, names)[i] == before[i]);
                let k = choose|k: int| 0 <= k < luids.drop_last().len() && luids.drop_last()[k] == before[i];
                assert(luids[k] == before[i]);
            } else {
                assert(keep_compute_only(luids, names)[i] == luids.last());
                assert(luids[luids.len() - 1] == luids.last());
            }
        }
    }
}

proof fn lemma_kept_distinct(luids: Seq<Seq<char>>, names: Seq<Seq<char>>)
    requires
        forall|a: int, b: int| 0 <= a < b < luids.len() ==> luids[a] != luids[b],
    ensures
        forall|a: int, b: int|
            0 <= a < b < keep_compute_only(luids, names).len() ==> keep_compute_only(luids, names)[a]
                != keep_compute_only(luids, names)[b],
    decreases luids.len(),
{
    if luids.len() > 0 {
        let rest = luids.drop_last();
        lemma_kept_distinct(rest, names);
        lemma_kept_from(rest, names);
        let before = keep_compute_only(rest, names);
        let kept = keep_compute_only(luids, names);
        assert forall|a: int, b: int| 0 <= a < b < kept.len() implies kept[a] != kept[b] by {
            if b >= before.len() {
                assert(kept[b] == luids.last());
                assert(kept[a] == before[a]);
                assert(rest.contains(before[a]));
                let k = choose|k: int| 0 <= k < rest.len() && rest[k] == before[a];
                assert(luids[k] == rest[k]);
                assert(luids[luids.len() - 1] == luids.last());
            } else {
                assert(kept[a] == before[a]);
                assert(kept[b] == before[b]);
            }
        }
    }
}

/// Each NPU is reported once: the compute-only adapters are distinct.
pub proof fn lemma_npus_distinct(names: Seq<Seq<char>>)
    ensures
        forall|a: int, b: int|
            0 <= a < b < compute_only(names).len() ==> compute_only(names)[a] != compute_only(names)[b],
{
    lemma_seen_distinct(names);
    lemma_kept_distinct(seen_luids(names), names);
}

/// Every NPU is an adapter that has compute engines and no other named engines.
pub proof fn lemma_npus_are_compute_only(names: Seq<Seq<char>>)
    ensures
        forall|i: int|
            0 <= i < compute_only(names).len() ==> is_compute_only(names, #[trigger] compute_only(names)[i]),
{
    lemma_kept_only(seen_luids(names), names);
}

proof fn lemma_kept_only(luids: Seq<Seq<char>>, names: Seq<Seq<char>>)
    ensures
        forall|i: int|
            0 <= i < keep_compute_only(luids, names).len() ==> is_compute_only(
                names,
                #[trigger] keep_compute_only(luids, names)[i],
            ),
    decreases luids.len(),
{
    if luids.len() > 0 {
        lemma_kept_only(luids.drop_last(), names);
        let before = keep_compute_only(luids.drop_last(), names);
        assert forall|i: int| 0 <= i < keep_compute_only(luids, names).len() implies is_compute_only(
            names,
            #[trigger] keep_compute_only(luids, names)[i],
        ) by {
            if i < before.len() {
                assert(keep_compute_only(luids, names)[i] == before[i]);
            }
        }
    }
}

/// Without a compute-only adapter every engine counts as GPU, and no NPU usage exists.
pub proof fn lemma_no_npu_all_gpu(names: Seq<Seq<char>>)
    requires
        compute_only(names).len() == 0,
    ensures
        forall|i: int| 0 <= i < names.len() ==> !on_npu(#[trigger] names[i], compute_only(names)),
{
}

/// The adapter id is the text right after the first `_luid_` of the name, up to the
/// first `_phys_` after it: the name holds `_luid_`, the id and `_phys_` in a row, no
/// earlier `_luid_`, and no `_phys_` starts inside the id. A name without `_luid_`
/// has no id.
pub proof fn lemma_luid_between_tags(name: Seq<char>)
    ensures
        luid_of(name) matches Some(l) ==> exists|a: int|
            {
                &&& 0 <= a
                &&& #[trigger] occurs_at(name, "_luid_"@, a)
                &&& (forall|j: int| 0 <= j < a ==> !#[trigger] occurs_at(name, "_luid_"@, j))
                &&& name.subrange(a + "_luid_"@.len(), a + "_luid_"@.len() + l.len()) == l
                &&& occurs_at(name, "_phys_"@, a + "_luid_"@.len() + l.len())
                &&& (forall|j: int|
                    a + "_luid_"@.len() <= j < a + "_luid_"@.len() + l.len() ==> !#[trigger] occurs_at(
                        name,
                        "_phys_"@,
                        j,
                    ))
            },
        (forall|j: int| 0 <= j ==> !#[trigger] occurs_at(name, "_luid_"@, j)) ==> luid_of(name) is None,
{
    lemma_find_from_first(name, "_luid_"@, 0);
    if let Some(a) = find_from(name, "_luid_"@, 0) {
        let start = a + "_luid_"@.len();
        lemma_find_from_first(name, "_phys_"@, start);
        if let Some(end) = find_from(name, "_phys_"@, start) {
            let l = name.subrange(start as int, end as int);
            assert(name.subrange(start as int, (start + l.len()) as int) == l);
            assert(occurs_at(name, "_luid_"@, a as int));
        }
    } else {
        if exists|j: int| 0 <= j && #[trigger] occurs_at(name, "_luid_"@, j) {
            let j = choose|j: int| 0 <= j && #[trigger] occurs_at(name, "_luid_"@, j);
            assert(!occurs_at(name, "_luid_"@, j));
        }
    }
}

/// The engine type is the rest of the name after its first `_engtype_`, character for
/// character, with ASCII capitals made small: it has the rest's length, no ASCII
/// capital, and agrees with the rest wherever the rest is not an ASCII capital.
pub proof fn lemma_engine_type_rest(name: Seq<char>)
    ensures
        engine_type_of(name) matches Some(t) ==> exists|a: int|
            {
                &&& #[trigger] occurs_at(name, "_engtype_"@, a)
                &&& (forall|j: int| 0 <= j < a ==> !#[trigger] occurs_at(name, "_engtype_"@, j))
                &&& t.len() == name.len() - (a + "_engtype_"@.len())
                &&& forall|i: int|
                    0 <= i < t.len() ==> {
                        let c = name[a + "_engtype_"@.len() + i];
                        &&& !('A' <= #[trigger] t[i] <= 'Z')
                        &&& (!('A' <= c <= 'Z') ==> t[i] == c)
                        &&& ('A' <= c <= 'Z' ==> t[i] as u32 == c as u32 + 32)
                    }
            },
{
    lemma_find_from_first(name, "_engtype_"@, 0);
    if let Some(a) = find_from(name, "_engtype_"@, 0) {
        assert(occurs_at(name, "_engtype_"@, a as int));
    }
}

} // verus!
