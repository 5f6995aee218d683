//! The watcher: what it prints, what it runs, and when.

use vstd::prelude::*;
use vstd::string::*;
use crate::text::{chars_of, string_from_chars};

verus! {

/// What is shown while the watcher waits.
pub const WATCHING: &'static str = "watching for changes...";

/// The width taken for a terminal whose size is not known.
pub const DEFAULT_WIDTH: usize = 10;

/// How often the watcher tries to read a file that will not format.
pub const TRIES: u8 = 10;

/// How long, in milliseconds, the watcher leaves a file alone after it has
/// run it.
pub const SETTLE_MS: u64 = 100;

/// What the watcher hears of.
#[derive(Clone, Copy, Debug, PartialEq, Eq, Structural)]
pub enum Event {
    /// The watch begins; `with_file` says whether there is a file to run at
    /// once.
    Started { with_file: bool },
    /// A source file was changed, so many milliseconds after the last run
    /// began.
    Changed { since_run_ms: u64 },
    /// The file was read: it is ready to run, and is empty or not.
    Ready { empty: bool },
    /// The file does not format just now.
    FormatFailed,
    /// The file could not be read for another reason.
    ReadFailed,
    /// The child has ended by itself.
    ChildExited,
    /// The user has interrupted.
    Interrupt,
}

/// What the watcher has its host do.
#[derive(Clone, Copy, Debug, PartialEq, Eq, Structural)]
pub enum Action {
    /// Wipe the terminal.
    ClearTerminal,
    /// Kill the child and forget it.
    KillChild,
    /// Show that the watcher waits.
    PrintWatching,
    /// Wipe the line that says so.
    ClearWatching,
    /// Read the file, formatted if formatting is on, and say how it went.
    ReadSource,
    /// Wait for so many milliseconds.
    Sleep(u64),
    /// Start a child that runs the file, and remember it.
    Spawn,
    /// Report the error that reading gave.
    Report,
    /// Say that the file would not format.
    GiveUp,
    /// Say that the program was interrupted.
    SayInterrupted,
    /// Blank the line that says the watcher waits.
    BlankWatching,
    /// End the process.
    Exit,
}

/// The state of the watcher.
#[derive(Clone, Copy, Debug, PartialEq, Eq, Structural)]
pub struct Watcher {
    /// Whether a child is remembered.
    pub child: bool,
    /// Whether the answer to `ReadSource` is awaited.
    pub reading: bool,
    /// How often reading has failed to format since the file was last taken
    /// up.
    pub failures: u8,
    /// Whether the terminal is wiped before a changed file is run.
    pub clear: bool,
}

/// The number of children alive after the host has done `actions`, when
/// `live` were alive before: a kill leaves none, a spawn adds one.
pub open spec fn live_after(actions: Seq<Action>, live: nat) -> nat
    decreases actions.len(),
{
    if actions.len() == 0 {
        live
    } else {
        let before = live_after(actions.drop_last(), live);
        match actions.last() {
            Action::KillChild => 0,
            Action::Spawn => before + 1,
            _ => before,
        }
    }
}

impl Watcher {
    /// A watcher that remembers no child.
    pub fn new(clear: bool) -> (watcher: Watcher)
        ensures
            watcher == (Watcher { child: false, reading: false, failures: 0, clear }),
    {
        Watcher { child: false, reading: false, failures: 0, clear }
    }

    /// What taking up a file asks of the host: the child that runs is
    /// killed first, then the file is read.
    pub open spec fn take_up(self) -> Seq<Action> {
        if self.child {
            seq![Action::KillChild, Action::PrintWatching, Action::ReadSource]
        } else {
            seq![Action::ReadSource]
        }
    }

    /// What the watcher has its host do when it hears of `event`.
    pub open spec fn reaction(self, event: Event) -> Seq<Action> {
        match event {
            Event::Started { with_file } => if with_file {
                self.take_up()
            } else {
                seq![]
            },
            Event::Changed { since_run_ms } => if since_run_ms > SETTLE_MS {
                if self.clear {
                    seq![Action::ClearTerminal] + self.take_up()
                } else {
                    self.take_up()
                }
            } else {
                seq![]
            },
            Event::Ready { empty } => if !self.reading {
                seq![]
            } else if empty {
                seq![Action::ClearWatching, Action::PrintWatching]
            } else {
                seq![Action::ClearWatching, Action::Spawn]
            },
            Event::FormatFailed => if !self.reading {
                seq![]
            } else if self.failures + 1 < TRIES {
                seq![Action::Sleep(((self.failures + 1) * 10) as u64), Action::ReadSource]
            } else {
                seq![Action::Sleep(((self.failures + 1) * 10) as u64), Action::GiveUp]
            },
            Event::ReadFailed => if !self.reading {
                seq![]
            } else {
                seq![Action::ClearWatching, Action::Report, Action::PrintWatching]
            },
            Event::ChildExited => if self.child {
                seq![Action::PrintWatching]
            } else {
                seq![]
            },
            Event::Interrupt => if self.child {
                seq![Action::KillChild, Action::SayInterrupted, Action::PrintWatching]
            } else {
                seq![Action::BlankWatching, Action::Exit]
            },
        }
    }

    /// The state of the watcher after it has heard of `event`.
    pub open spec fn next(self, event: Event) -> Watcher {
        match event {
            Event::Started { with_file } => if with_file {
                Watcher { child: false, reading: true, failures: 0, ..self }
            } else {
                self
            },
            Event::Changed { since_run_ms } => if since_run_ms > SETTLE_MS {
                Watcher { child: false, reading: true, failures: 0, ..self }
            } else {
                self
            },
            Event::Ready { empty } => if !self.reading {
                self
            } else {
                Watcher { child: !empty, reading: false, failures: 0, ..self }
            },
            Event::FormatFailed => if !self.reading {
                self
            } else if self.failures + 1 < TRIES {
                Watcher { failures: (self.failures + 1) as u8, ..self }
            } else {
                Watcher { reading: false, failures: 0, ..self }
            },
            Event::ReadFailed => if !self.reading {
                self
            } else {
                Watcher { reading: false, failures: 0, ..self }
            },
            Event::ChildExited => Watcher { child: false, ..self },
            Event::Interrupt => Watcher { child: false, ..self },
        }
    }

    /// What holds of a watcher at all times: while it reads it remembers no
    /// child, and it has not yet failed as often as it may try.
    pub open spec fn wf(self) -> bool {
        &&& self.failures < TRIES
        &&& self.reading ==> !self.child
        &&& !self.reading ==> self.failures == 0
    }

    /// Whether the watcher's memory fits a world with `live` children: there
    /// is at most one, and it is remembered exactly when there is one.
    pub open spec fn agrees(self, live: nat) -> bool {
        live <= 1 && (self.child <==> live == 1)
    }

    /// Hears of an event: says what the host is to do, in order, and moves
    /// on.
    pub fn hear(&mut self, event: Event) -> (actions: Vec<Action>)
        requires
            old(self).wf(),
        ensures
            actions@ == old(self).reaction(event),
            *final(self) == old(self).next(event),
            final(self).wf(),
    {
        let mut actions: Vec<Action> = Vec::new();
        match event {
            Event::Started { with_file } => {
                if with_file {
                    self.start_reading(&mut actions);
                }
            },
            Event::Changed { since_run_ms } => {
                if since_run_ms > SETTLE_MS {
                    if self.clear {
                        actions.push(Action::ClearTerminal);
                    }
                    self.start_reading(&mut actions);
                }
            },
            Event::Ready { empty } => {
                if self.reading {
                    actions.push(Action::ClearWatching);
                    if empty {
                        actions.push(Action::PrintWatching);
                    } else {
                        actions.push(Action::Spawn);
                    }
                    self.child = !empty;
                    self.reading = false;
                    self.failures = 0;
                }
            },
            Event::FormatFailed => {
                if self.reading {
                    let failed = self.failures + 1;
                    actions.push(Action::Sleep(failed as u64 * 10));
                    if failed < TRIES {
                        actions.push(Action::ReadSource);
                        self.failures = failed;
                    } else {
                        actions.push(Action::GiveUp);
                        self.reading = false;
                        self.failures = 0;
                    }
                }
            },
            Event::ReadFailed => {
                if self.reading {
                    actions.push(Action::ClearWatching);
                    actions.push(Action::Report);
                    actions.push(Action::PrintWatching);
                    self.reading = false;
                    self.failures = 0;
                }
            },
            Event::ChildExited => {
                if self.child {
                    actions.push(Action::PrintWatching);
                }
                self.child = false;
            },
            Event::Interrupt => {
                if self.child {
                    actions.push(Action::KillChild);
                    actions.push(Action::SayInterrupted);
                    actions.push(Action::PrintWatching);
                } else {
                    actions.push(Action::BlankWatching);
                    actions.push(Action::Exit);
                }
                self.child = false;
            },
        }
        assert(actions@ =~= old(self).reaction(event));
        actions
    }

    fn start_reading(&mut self, actions: &mut Vec<Action>)
        ensures
            final(actions)@ == old(actions)@ + old(self).take_up(),
            *final(self) == (Watcher { child: false, reading: true, failures: 0, ..*old(self) }),
    {
        if self.child {
            actions.push(Action::KillChild);
            actions.push(Action::PrintWatching);
        }
        actions.push(Action::ReadSource);
        self.child = false;
        self.reading = true;
        self.failures = 0;
        assert(actions@ =~= old(actions)@ + old(self).take_up());
    }
}

/// At most one child is ever alive. If the watcher's memory fits the world
/// before an event, it fits the world after the host has done what the
/// watcher said; and a child that ended by itself is no longer alive when the
/// watcher hears of it.
pub proof fn lemma_single_child(watcher: Watcher, event: Event, live: nat)
    requires
        watcher.wf(),
        watcher.agrees(live),
    ensures
        watcher.next(event).wf(),
        watcher.next(event).agrees(
            live_after(
                watcher.reaction(event),
                if event is ChildExited {
                    0
                } else {
                    live
                },
            ),
        ),
{
    let actions = watcher.reaction(event);
    let start: nat = if event is ChildExited {
        0
    } else {
        live
    };
    lemma_live_without_spawn(actions, start);
    match event {
        Event::Started { with_file } => {
            if with_file && watcher.child {
                assert(actions[0] == Action::KillChild);
            }
        },
        Event::Changed { since_run_ms } => {
            if since_run_ms > SETTLE_MS && watcher.child {
                if watcher.clear {
                    assert(actions =~= seq![
                        Action::ClearTerminal,
                        Action::KillChild,
                        Action::PrintWatching,
                        Action::ReadSource,
                    ]);
                    assert(actions[1] == Action::KillChild);
                } else {
                    assert(actions[0] == Action::KillChild);
                }
            } else if since_run_ms > SETTLE_MS && watcher.clear {
                assert(actions =~= seq![Action::ClearTerminal, Action::ReadSource]);
            }
        },
        Event::Ready { empty } => {
            if watcher.reading && !empty {
                assert(actions.drop_last() =~= seq![Action::ClearWatching]);
                lemma_live_without_spawn(actions.drop_last(), start);
            }
        },
        Event::Interrupt => {
            if watcher.child {
                assert(actions[0] == Action::KillChild);
            }
        },
        _ => {},
    }
}

/// An interrupt while a child runs kills it first and leaves no child
/// remembered.
pub proof fn lemma_interrupt_kills(watcher: Watcher, live: nat)
    requires
        watcher.agrees(live),
        watcher.child,
    ensures
        watcher.reaction(Event::Interrupt)[0] == Action::KillChild,
        !watcher.next(Event::Interrupt).child,
        live_after(watcher.reaction(Event::Interrupt), live) == 0,
{
    let actions = watcher.reaction(Event::Interrupt);
    assert(actions[0] == Action::KillChild);
    lemma_live_without_spawn(actions, live);
}

/// Where nothing is spawned, a kill leaves no child alive, and without a
/// kill as many are alive as before.
proof fn lemma_live_without_spawn(actions: Seq<Action>, live: nat)
    ensures
        (forall|i: int| 0 <= i < actions.len() ==> actions[i] != Action::Spawn) ==> live_after(
            actions,
            live,
        ) == if exists|i: int| 0 <= i < actions.len() && actions[i] == Action::KillChild {
            0
        } else {
            live
        },
    decreases actions.len(),
{
    if actions.len() > 0 {
        let front = actions.drop_last();
        lemma_live_without_spawn(front, live);
        if forall|i: int| 0 <= i < actions.len() ==> actions[i] != Action::Spawn {
            assert forall|i: int| 0 <= i < front.len() implies front[i] != Action::Spawn by {
                assert(front[i] == actions[i]);
            }
            if actions.last() != Action::KillChild {
                if exists|i: int| 0 <= i < actions.len() && actions[i] == Action::KillChild {
                    let k = choose|i: int| 0 <= i < actions.len() && actions[i] == Action::KillChild;
                    assert(front[k] == Action::KillChild);
                } else {
                    assert forall|i: int| 0 <= i < front.len() implies front[i]
                        != Action::KillChild by {
                        assert(front[i] == actions[i]);
                    }
                }
            } else {
                assert(actions[actions.len() - 1] == Action::KillChild);
            }
        }
    }
}

/// The arguments with which the child is started: `run`, the file, the
/// switches that keep it from formatting, from looking for updates and from
/// skipping tests, and after `--` the arguments of the user, if there are
/// any.
pub open spec fn child_args_spec(path: Seq<char>, args: Seq<Seq<char>>) -> Seq<Seq<char>> {
    seq!["run"@, path, "--no-format"@, "--no-update"@, "--mode"@, "all"@] + if args.len() > 0 {
        seq!["--"@] + args
    } else {
        seq![]
    }
}

/// The arguments with which the child is started.
pub fn child_args(path: &str, args: &Vec<String>) -> (line: Vec<String>)
    ensures
        crate::value::strings_view(line@) == child_args_spec(
            path@,
            crate::value::strings_view(args@),
        ),
{
    let mut line: Vec<String> = Vec::new();
    line.push(String::from_str("run"));
    line.push(String::from_str(path));
    line.push(String::from_str("--no-format"));
    line.push(String::from_str("--no-update"));
    line.push(String::from_str("--mode"));
    line.push(String::from_str("all"));
    let ghost head = crate::value::strings_view(line@);
    assert(head =~= seq!["run"@, path@, "--no-format"@, "--no-update"@, "--mode"@, "all"@]);
    if args.len() > 0 {
        line.push(String::from_str("--"));
        let mut i: usize = 0;
        while i < args.len()
            invariant
                i <= args.len(),
                crate::value::strings_view(line@) =~= head + seq!["--"@]
                    + crate::value::strings_view(args@).take(i as int),
            decreases args.len() - i,
        {
            let copy = args[i].clone();
            proof {
                let before = crate::value::strings_view(line@);
                assert(crate::value::strings_view(line@.push(copy)) =~= before.push(copy@));
                assert(crate::value::strings_view(args@).take(i + 1)
                    =~= crate::value::strings_view(args@).take(i as int).push(args@[i as int]@));
            }
            line.push(copy);
            i += 1;
        }
        assert(crate::value::strings_view(args@).take(args@.len() as int)
            =~= crate::value::strings_view(args@));
        assert(head + seq!["--"@] + crate::value::strings_view(args@) =~= head + (seq!["--"@]
            + crate::value::strings_view(args@)));
    } else {
        assert(head + Seq::<Seq<char>>::empty() =~= head);
    }
    line
}

/// Asks for the size of the terminal, as columns and rows.
///
/// Stands for `term_size::dimensions`, which asks the terminal behind the
/// standard streams and gives `None` where there is none. Nothing is known
/// of the answer.
#[verifier::external_body]
fn terminal_size() -> (size: Option<(usize, usize)>) {
    term_size::dimensions()
}

/// `n` copies of `s`, one after the other.
pub open spec fn repeated(s: Seq<char>, n: nat) -> Seq<char>
    decreases n,
{
    if n == 0 {
        Seq::empty()
    } else {
        repeated(s, (n - 1) as nat) + s
    }
}

/// The text that wipes the watcher's line: a carriage return, `s` once for
/// each column, and `end`.
pub open spec fn clearing_line(s: Seq<char>, end: Seq<char>, width: nat) -> Seq<char> {
    seq!['\r'] + repeated(s, width) + end
}

/// The width to wipe on a terminal of the given size: its columns, or ten
/// where the size is not known.
pub open spec fn width_of(size: Option<(usize, usize)>) -> nat {
    match size {
        Some((columns, _)) => columns as nat,
        None => DEFAULT_WIDTH as nat,
    }
}

/// The text that wipes the watcher's line on a terminal of the given size.
pub fn clearing_text(s: &str, end: &str, size: Option<(usize, usize)>) -> (text: String)
    ensures
        text@ == clearing_line(s@, end@, width_of(size)),
{
    let width = match size {
        Some((columns, _)) => columns,
        None => DEFAULT_WIDTH,
    };
    let piece = chars_of(s);
    let tail = chars_of(end);
    let mut out: Vec<char> = Vec::new();
    out.push('\r');
    let mut n: usize = 0;
    while n < width
        invariant
            n <= width,
            piece@ == s@,
            out@ == seq!['\r'] + repeated(s@, n as nat),
        decreases width - n,
    {
        let ghost before = out@;
        let mut i: usize = 0;
        while i < piece.len()
            invariant
                i <= piece.len(),
                out@ == before + piece@.take(i as int),
            decreases piece.len() - i,
        {
            assert(piece@.take(i + 1) == piece@.take(i as int).push(piece@[i as int]));
            out.push(piece[i]);
            i += 1;
        }
        assert(piece@.take(piece@.len() as int) == piece@);
        n += 1;
        assert(out@ == seq!['\r'] + repeated(s@, n as nat));
    }
    let ghost before = out@;
    let mut i: usize = 0;
    while i < tail.len()
        invariant
            i <= tail.len(),
            out@ == before + tail@.take(i as int),
        decreases tail.len() - i,
    {
        assert(tail@.take(i + 1) == tail@.take(i as int).push(tail@[i as int]));
        out.push(tail[i]);
        i += 1;
    }
    assert(tail@.take(tail@.len() as int) == tail@);
    string_from_chars(&out)
}

/// The text that wipes the watcher's line on this terminal: `s` repeated
/// across its width, then `end`.
pub fn clear_watching_with(s: &str, end: &str) -> (text: String)
    ensures
        exists|size: Option<(usize, usize)>| text@ == clearing_line(s@, end@, width_of(size)),
{
    let size = terminal_size();
    clearing_text(s, end, size)
}

/// The text that replaces the watcher's line by a rule across the terminal
/// and moves to the next line.
pub fn clear_watching() -> (text: String)
    ensures
        exists|size: Option<(usize, usize)>|
            text@ == clearing_line("\u{2015}"@, "\n"@, width_of(size)),
{
    clear_watching_with("\u{2015}", "\n")
}

} // verus!
