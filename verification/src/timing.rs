//! The time that instructions take: a total for each kind of instruction,
//! kept in the order in which the kinds were first seen.

use vstd::prelude::*;
use vstd::string::*;
use crate::compile::Instr;
use crate::text::same_text;

verus! {

/// The monotonic clock of std.
#[verifier::external_type_specification]
#[verifier::external_body]
pub struct ExInstant(std::time::Instant);

/// Reads the monotonic clock.
///
/// Stands for `Instant::now`. Nothing is known of the answer.
#[verifier::external_body]
fn instant_now() -> (now: std::time::Instant) {
    std::time::Instant::now()
}

/// The time that has passed since a reading of the monotonic clock.
///
/// Stands for `Instant::elapsed`. Nothing is known of the answer.
#[verifier::external_body]
fn elapsed(since: &std::time::Instant) -> (passed: core::time::Duration) {
    since.elapsed()
}

/// The whole microseconds of a length of time.
///
/// Stands for `Duration::as_micros`.
#[verifier::external_body]
fn whole_micros(passed: &core::time::Duration) -> (micros: u128) {
    passed.as_micros()
}

/// A reading of the monotonic clock, to be asked later how long ago it was.
pub struct Started {
    at: std::time::Instant,
}

impl Started {
    /// Reads the clock.
    pub fn now() -> (started: Started) {
        Started { at: instant_now() }
    }

    /// The whole microseconds that have passed since the reading.
    pub fn micros(&self) -> (micros: u128) {
        whole_micros(&elapsed(&self.at))
    }
}

/// The name under which the time of an instruction is kept: the name of the
/// primitive or of the effect operation that it runs, or what it does.
pub open spec fn instr_name(instr: Instr) -> Seq<char> {
    match instr {
        Instr::PushConstant(_) => "push"@,
        Instr::PushFunction(_) => "push function"@,
        Instr::CallPrimitive(prim) => prim.name_spec(),
        Instr::CallFunction(_) => "call"@,
        Instr::CallIoOp(op) => op.name_spec(),
        Instr::ApplyModifier(prim, _, _) => prim.name_spec(),
        Instr::BindGlobal(_) => "bind"@,
        Instr::LoadGlobal(_) => "load"@,
        Instr::BeginArray => "begin array"@,
        Instr::EndArray => "end array"@,
        Instr::EndOfAssembly => "end"@,
    }
}

/// The name under which the time of an instruction is kept.
pub fn name_of(instr: Instr) -> (name: &'static str)
    ensures
        name@ == instr_name(instr),
{
    match instr {
        Instr::PushConstant(_) => "push",
        Instr::PushFunction(_) => "push function",
        Instr::CallPrimitive(prim) => prim.name(),
        Instr::CallFunction(_) => "call",
        Instr::CallIoOp(op) => op.name(),
        Instr::ApplyModifier(prim, _, _) => prim.name(),
        Instr::BindGlobal(_) => "bind",
        Instr::LoadGlobal(_) => "load",
        Instr::BeginArray => "begin array",
        Instr::EndArray => "end array",
        Instr::EndOfAssembly => "end",
    }
}

/// The totals as mathematical values: names and microseconds.
pub open spec fn totals_view(entries: Seq<(String, u128)>) -> Seq<(Seq<char>, u128)> {
    Seq::new(entries.len(), |i: int| (entries[i].0@, entries[i].1))
}

/// The place of a name among the first `n` totals, or `n` if it is not
/// among them.
pub open spec fn place_of(totals: Seq<(Seq<char>, u128)>, name: Seq<char>, n: nat) -> nat
    decreases n,
{
    if n == 0 || n > totals.len() {
        0
    } else {
        let before = place_of(totals, name, (n - 1) as nat);
        if before < n - 1 || totals[n - 1].0 == name {
            before
        } else {
            n
        }
    }
}

/// The sum of two times, or the largest time where the sum is larger.
pub open spec fn summed(a: u128, b: u128) -> u128 {
    if a + b > u128::MAX {
        u128::MAX
    } else {
        (a + b) as u128
    }
}

/// The totals after a time is recorded under a name: the total of a name
/// that is known grows by the time, and a name that is new comes last, with
/// the time as its total.
pub open spec fn recorded(totals: Seq<(Seq<char>, u128)>, name: Seq<char>, micros: u128) -> Seq<
    (Seq<char>, u128),
> {
    let at = place_of(totals, name, totals.len()) as int;
    if at < totals.len() {
        totals.update(at, (name, summed(totals[at].1, micros)))
    } else {
        totals.push((name, micros))
    }
}

/// The time that instructions took, in microseconds, by name.
#[derive(Debug)]
pub struct Timings {
    entries: Vec<(String, u128)>,
}

impl View for Timings {
    type V = Seq<(Seq<char>, u128)>;

    closed spec fn view(&self) -> Seq<(Seq<char>, u128)> {
        totals_view(self.entries@)
    }
}

impl Timings {
    /// No time at all.
    pub fn new() -> (timings: Timings)
        ensures
            timings@ == Seq::<(Seq<char>, u128)>::empty(),
    {
        let timings = Timings { entries: Vec::new() };
        assert(timings@ =~= Seq::<(Seq<char>, u128)>::empty());
        timings
    }

    /// Records a time under a name.
    pub fn record(&mut self, name: &str, micros: u128)
        ensures
            final(self)@ == recorded(old(self)@, name@, micros),
    {
        let ghost before = self@;
        let mut at: usize = 0;
        while at < self.entries.len()
            invariant
                at <= self.entries@.len(),
                self@ == before,
                before == old(self)@,
                place_of(before, name@, at as nat) == at,
            decreases self.entries.len() - at,
        {
            if same_text(self.entries[at].0.as_str(), name) {
                proof {
                    lemma_place_found(before, name@, (at + 1) as nat, before.len());
                }
                let total = self.entries[at].1;
                let sum = match total.checked_add(micros) {
                    Some(sum) => sum,
                    None => u128::MAX,
                };
                self.entries[at] = (String::from_str(name), sum);
                assert(self@ =~= recorded(before, name@, micros));
                return ;
            }
            at += 1;
        }
        self.entries.push((String::from_str(name), micros));
        assert(self@ =~= recorded(before, name@, micros));
    }

    /// The totals, in the order in which their names were first recorded.
    pub fn totals(&self) -> (totals: Vec<(String, u128)>)
        ensures
            totals_view(totals@) == self@,
    {
        let mut totals: Vec<(String, u128)> = Vec::new();
        let mut i: usize = 0;
        while i < self.entries.len()
            invariant
                i <= self.entries@.len(),
                totals@.len() == i,
                totals_view(totals@) == self@.take(i as int),
            decreases self.entries.len() - i,
        {
            let entry = (self.entries[i].0.clone(), self.entries[i].1);
            proof {
                let so_far = totals_view(totals@);
                let more = totals_view(totals@.push(entry));
                assert(self@[i as int] == (entry.0@, entry.1));
                assert forall|j: int| 0 <= j < i + 1 implies more[j] == self@.take(i + 1)[j] by {
                    if j < i {
                        assert(more[j] == so_far[j]);
                        assert(so_far[j] == self@.take(i as int)[j]);
                    }
                }
                assert(more =~= self@.take(i + 1));
            }
            totals.push(entry);
            i += 1;
        }
        assert(self@.take(self@.len() as int) == self@);
        totals
    }
}

/// A name that is found among the first totals is found at the same place
/// among more.
proof fn lemma_place_found(totals: Seq<(Seq<char>, u128)>, name: Seq<char>, n: nat, m: nat)
    requires
        n <= m <= totals.len(),
        place_of(totals, name, n) < n,
    ensures
        place_of(totals, name, m) == place_of(totals, name, n),
    decreases m - n,
{
    if n < m {
        lemma_place_found(totals, name, n, (m - 1) as nat);
    }
}

} // verus!
