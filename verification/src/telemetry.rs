//! Accumulated timings of named scopes.

use vstd::prelude::*;

verus! {

/// Total time spent in a scope and how many times it ran.
#[derive(Debug, Clone, Copy, PartialEq, Eq, Structural)]
pub struct TimingStats {
    pub total_ms: u128,
    pub count: u32,
}

/// The largest total a duration can hold, in nanoseconds.
pub open spec fn max_total_ns() -> nat {
    (u64::MAX as nat) * 1_000_000_000 + 999_999_999
}

/// Index of the entry named `name`.
pub open spec fn entry_index(es: Seq<(Seq<char>, u128, u32)>, name: Seq<char>) -> Option<int>
    decreases es.len(),
{
    if es.len() == 0 {
        None
    } else if es.last().0 == name {
        Some(es.len() - 1)
    } else {
        entry_index(es.drop_last(), name)
    }
}

/// Timings per scope name, in the order the names were first seen.
pub struct TimingRegistry {
    entries: Vec<(String, u128, u32)>,
}

pub open spec fn entries_view(v: Seq<(String, u128, u32)>) -> Seq<(Seq<char>, u128, u32)> {
    v.map_values(|e: (String, u128, u32)| (e.0@, e.1, e.2))
}

/// One more run of `name` taking `elapsed_ns`, when neither the total nor
/// the count overflows.
pub open spec fn spec_record(es: Seq<(Seq<char>, u128, u32)>, name: Seq<char>, elapsed_ns: u64) -> Option<Seq<(Seq<char>, u128, u32)>> {
    match entry_index(es, name) {
        Some(i) => if es[i].1 + elapsed_ns <= max_total_ns() && es[i].2 < u32::MAX {
            Some(es.update(i, (name, (es[i].1 + elapsed_ns) as u128, (es[i].2 + 1) as u32)))
        } else {
            None
        },
        None => Some(es.push((name, elapsed_ns as u128, 1u32))),
    }
}

/// The stats of every entry, totals in whole milliseconds.
pub open spec fn spec_stats(es: Seq<(Seq<char>, u128, u32)>) -> Seq<(Seq<char>, TimingStats)> {
    es.map_values(|e: (Seq<char>, u128, u32)| (e.0, TimingStats { total_ms: e.1 / 1_000_000, count: e.2 }))
}

/// The registry after recording runs of `name` taking `ds`, in order, when
/// none of them overflows.
pub open spec fn record_runs(es: Seq<(Seq<char>, u128, u32)>, name: Seq<char>, ds: Seq<u64>) -> Option<Seq<(Seq<char>, u128, u32)>>
    decreases ds.len(),
{
    if ds.len() == 0 {
        Some(es)
    } else {
        match spec_record(es, name, ds[0]) {
            Some(e2) => record_runs(e2, name, ds.drop_first()),
            None => None,
        }
    }
}

/// The sum of the durations.
pub open spec fn total_ns(ds: Seq<u64>) -> nat
    decreases ds.len(),
{
    if ds.len() == 0 {
        0
    } else {
        ds[0] as nat + total_ns(ds.drop_first())
    }
}

proof fn lemma_runs_on_entry(name: Seq<char>, t: nat, c: nat, ds: Seq<u64>)
    requires
        t + total_ns(ds) <= max_total_ns(),
        c + ds.len() <= u32::MAX,
        c >= 1,
    ensures
        record_runs(seq![(name, t as u128, c as u32)], name, ds)
            == Some(seq![(name, (t + total_ns(ds)) as u128, (c + ds.len()) as u32)]),
    decreases ds.len(),
{
    let es = seq![(name, t as u128, c as u32)];
    if ds.len() == 0 {
        assert(t + 0 == t);
    } else {
        assert(es.last().0 == name);
        assert(entry_index(es, name) == Some(0int));
        let e2 = es.update(0, (name, (t + ds[0]) as u128, (c + 1) as u32));
        assert(spec_record(es, name, ds[0]) == Some(e2));
        assert(e2 =~= seq![(name, (t + ds[0]) as u128, (c + 1) as u32)]);
        lemma_runs_on_entry(name, t + ds[0] as nat, c + 1, ds.drop_first());
    }
}

/// Recording `n >= 1` runs of one scope into an empty registry leaves one
/// entry for it, whose count is `n` and whose total is the runs' summed
/// time in whole milliseconds (summed first, then truncated), when the
/// total and the count fit.
pub proof fn lemma_runs_accumulate(name: Seq<char>, ds: Seq<u64>)
    requires
        ds.len() >= 1,
        total_ns(ds) <= max_total_ns(),
        ds.len() <= u32::MAX,
    ensures
        record_runs(Seq::empty(), name, ds) == Some(seq![(name, total_ns(ds) as u128, ds.len() as u32)]),
        spec_stats(seq![(name, total_ns(ds) as u128, ds.len() as u32)])
            == seq![(name, TimingStats { total_ms: (total_ns(ds) / 1_000_000) as u128, count: ds.len() as u32 })],
{
    let empty = Seq::<(Seq<char>, u128, u32)>::empty();
    assert(entry_index(empty, name) is None);
    assert(spec_record(empty, name, ds[0]) == Some(seq![(name, ds[0] as u128, 1u32)]));
    assert(empty.push((name, ds[0] as u128, 1u32)) =~= seq![(name, ds[0] as u128, 1u32)]);
    lemma_runs_on_entry(name, ds[0] as nat, 1, ds.drop_first());
    assert(total_ns(ds) == ds[0] + total_ns(ds.drop_first()));
    assert(spec_stats(seq![(name, total_ns(ds) as u128, ds.len() as u32)])
        =~= seq![(name, TimingStats { total_ms: (total_ns(ds) / 1_000_000) as u128, count: ds.len() as u32 })]);
}

impl View for TimingRegistry {
    type V = Seq<(Seq<char>, u128, u32)>;

    closed spec fn view(&self) -> Seq<(Seq<char>, u128, u32)> {
        entries_view(self.entries@)
    }
}

impl TimingRegistry {
    pub fn new() -> (r: TimingRegistry)
        ensures
            r@ == Seq::<(Seq<char>, u128, u32)>::empty(),
    {
        let r = TimingRegistry { entries: Vec::new() };
        assert(entries_view(r.entries@) =~= Seq::<(Seq<char>, u128, u32)>::empty());
        r
    }

    /// Adds one run of the scope `name` that took `elapsed_ns`. Returns
    /// false, changing nothing, when the scope's total or count would
    /// overflow.
    pub fn record(&mut self, name: &str, elapsed_ns: u64) -> (r: bool)
        ensures
            match spec_record(old(self)@, name@, elapsed_ns) {
                Some(es) => r && final(self)@ == es,
                None => !r && final(self)@ == old(self)@,
            },
    {
        let ghost ev = entries_view(self.entries@);
        let mut i: usize = self.entries.len();
        assert(ev.take(i as int) =~= ev);
        while i > 0
            invariant
                i <= self.entries@.len(),
                ev == entries_view(self.entries@),
                ev == old(self)@,
                entry_index(ev, name@) == entry_index(ev.take(i as int), name@),
            decreases i,
        {
            assert(ev.take(i as int).last() == ev[i - 1]);
            assert(ev.take(i as int).drop_last() =~= ev.take(i - 1));
            if crate::text::str_eq(self.entries[i - 1].0.as_str(), name) {
                assert(ev[i - 1].0 == name@);
                assert(entry_index(ev.take(i as int), name@) == Some((i - 1) as int));
                assert(entry_index(ev, name@) == Some((i - 1) as int));
                let total = self.entries[i - 1].1;
                let count = self.entries[i - 1].2;
                if total > 18_446_744_073_709_551_615_999_999_999 - (elapsed_ns as u128) || count == 0xffff_ffff {
                    return false;
                }
                let n = self.entries[i - 1].0.clone();
                self.entries.set(i - 1, (n, total + elapsed_ns as u128, count + 1));
                assert(entries_view(self.entries@) =~= ev.update(i - 1, (name@, (total + elapsed_ns) as u128, (count + 1) as u32)));
                return true;
            }
            i -= 1;
        }
        assert(ev.take(0) =~= Seq::<(Seq<char>, u128, u32)>::empty());
        self.entries.push((name.to_string(), elapsed_ns as u128, 1));
        assert(entries_view(self.entries@) =~= ev.push((name@, elapsed_ns as u128, 1u32)));
        true
    }
}

/// The accumulated timings, totals in whole milliseconds.
pub fn get_timings(reg: &TimingRegistry) -> (r: Vec<(String, TimingStats)>)
    ensures
        r@.map_values(|e: (String, TimingStats)| (e.0@, e.1)) == spec_stats(reg@),
{
    let mut out: Vec<(String, TimingStats)> = Vec::new();
    let ghost ev = reg@;
    let mut i: usize = 0;
    while i < reg.entries.len()
        invariant
            i <= reg.entries@.len(),
            ev == reg@,
            ev == entries_view(reg.entries@),
            out@.map_values(|e: (String, TimingStats)| (e.0@, e.1)) == spec_stats(ev.take(i as int)),
        decreases reg.entries@.len() - i,
    {
        let e = &reg.entries[i];
        let ghost before = out@;
        out.push((e.0.clone(), TimingStats { total_ms: e.1 / 1_000_000, count: e.2 }));
        assert(out@.map_values(|e: (String, TimingStats)| (e.0@, e.1)) =~= before.map_values(
            |e: (String, TimingStats)| (e.0@, e.1),
        ).push((ev[i as int].0, TimingStats { total_ms: ev[i as int].1 / 1_000_000, count: ev[i as int].2 })));
        assert(spec_stats(ev.take(i + 1)) =~= spec_stats(ev.take(i as int)).push(
            (ev[i as int].0, TimingStats { total_ms: ev[i as int].1 / 1_000_000, count: ev[i as int].2 }),
        ));
        i += 1;
    }
    assert(ev.take(i as int) =~= ev);
    out
}

/// Forgets every timing.
pub fn clear_timings(reg: &mut TimingRegistry)
    ensures
        final(reg)@ == Seq::<(Seq<char>, u128, u32)>::empty(),
{
    *reg = TimingRegistry::new();
}

/// A scope being timed: its name and when it began, in nanoseconds on the
/// caller's monotonic clock.
pub struct ScopeTimer {
    pub name: String,
    pub start_ns: u64,
}

/// The time from `start` to `now`, zero where the clock reads earlier.
pub open spec fn elapsed_ns(start: u64, now: u64) -> u64 {
    if now >= start { (now - start) as u64 } else { 0 }
}

impl ScopeTimer {
    /// Starts timing the scope `name` at `now_ns`.
    pub fn new(name: &str, now_ns: u64) -> (r: ScopeTimer)
        ensures
            r.name@ == name@,
            r.start_ns == now_ns,
    {
        ScopeTimer { name: name.to_string(), start_ns: now_ns }
    }

    /// Ends the scope at `now_ns` and adds its running time to `reg`, as
    /// [`TimingRegistry::record`] does.
    pub fn finish(self, reg: &mut TimingRegistry, now_ns: u64) -> (r: bool)
        ensures
            match spec_record(old(reg)@, self.name@, elapsed_ns(self.start_ns, now_ns)) {
                Some(es) => r && final(reg)@ == es,
                None => !r && final(reg)@ == old(reg)@,
            },
    {
        let elapsed = if now_ns >= self.start_ns { now_ns - self.start_ns } else { 0 };
        reg.record(self.name.as_str(), elapsed)
    }
}

} // verus!
