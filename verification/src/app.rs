//! Application state machine: owns the current run result, the single-flight
//! "run in progress" flag, and the navigation state. Triggering a run yields
//! a request describing the external command to launch; the surrounding event
//! loop performs the launch and feeds the completion back as an `Action`.

use vstd::prelude::*;
use vstd::string::StrSliceExecFns;
use vstd::string::StringExecFns;

use crate::policy::{expanded_in, open_all_failed, default_selection, strings_view};
use crate::report::{report_is_wf, report_wf, Report, StatusV};
use crate::run::RunError;
use crate::tree::{infos_view, is_build_of, suite_nodes, TestInfoV, TestRun};

verus! {

broadcast use vstd::std_specs::vec::group_vec_axioms, vstd::seq::group_seq_axioms;

/// Navigation state: the selected path of node identifiers and the set of
/// node identifiers rendered open.
pub struct NavState {
    pub selected: Vec<String>,
    pub expanded: Vec<String>,
}

/// What the event loop must launch after a successful trigger: the program
/// name and its argument list, the target file path appended last.
pub struct RunRequest {
    pub program: String,
    pub args: Vec<String>,
}

/// An event consumed by the state machine: a completed run (parsed report or
/// failure), notice that a run started, or a request to trigger one.
pub enum Action {
    TestResult(Result<Report, RunError>),
    TestStarted,
    TriggerRun,
}

/// The application state: run result, single-flight flag, navigation state,
/// and the cosmetic animation counter.
pub struct App {
    /// Is the application running (false once the user quit)?
    pub running: bool,
    /// A small counter kept for the operator.
    pub counter: u8,
    /// Target report file, handed to the external command as its last argument.
    pub file: String,
    /// Result of the last completed run, if any.
    pub result: Option<Result<TestRun, RunError>>,
    /// Navigation state, reset whenever a run completes.
    pub nav: NavState,
    /// Is an external run currently in flight?
    pub is_running: bool,
    /// Frame counter of the progress indicator; purely cosmetic.
    pub throbber_frame: u64,
    /// Configured command string, split on spaces when a run is triggered.
    pub cmd: Option<String>,
}

/// The command string a run uses: the configured one, or `cat` as the default
/// passthrough.
pub open spec fn command_view(a: App) -> Seq<char> {
    match a.cmd {
        Some(c) => c@,
        None => "cat"@,
    }
}

/// Splits a character sequence on single spaces, keeping empty segments:
/// `cur` is the segment being accumulated.
pub open spec fn split_acc(s: Seq<char>, cur: Seq<char>) -> Seq<Seq<char>>
    decreases s.len(),
{
    if s.len() == 0 {
        seq![cur]
    } else if s[0] == ' ' {
        seq![cur] + split_acc(s.drop_first(), Seq::empty())
    } else {
        split_acc(s.drop_first(), cur.push(s[0]))
    }
}

/// The space-separated segments of a character sequence; always at least one
/// segment.
pub open spec fn split_spaces_spec(s: Seq<char>) -> Seq<Seq<char>> {
    split_acc(s, Seq::empty())
}

/// A split yields at least one segment.
pub proof fn lemma_split_acc_len(s: Seq<char>, cur: Seq<char>)
    ensures
        split_acc(s, cur).len() >= 1,
    decreases s.len(),
{
    if s.len() > 0 && s[0] != ' ' {
        lemma_split_acc_len(s.drop_first(), cur.push(s[0]));
    }
}

/// Splits a string on single spaces, keeping empty segments.
pub fn split_spaces(s: &str) -> (parts: Vec<String>)
    ensures
        strings_view(parts@) == split_spaces_spec(s@),
        parts@.len() >= 1,
{
    let len = s.unicode_len();
    let mut parts: Vec<String> = Vec::new();
    let mut seg_start: usize = 0;
    let mut i: usize = 0;
    proof {
        assert(s@.subrange(0, len as int) =~= s@);
        assert(s@.subrange(0, 0) =~= Seq::<char>::empty());
        assert(strings_view(parts@) =~= Seq::<Seq<char>>::empty());
        assert(Seq::<Seq<char>>::empty() + split_acc(s@, Seq::empty()) =~= split_acc(
            s@,
            Seq::empty(),
        ));
    }
    while i < len
        invariant
            seg_start <= i <= len,
            len == s@.len(),
            strings_view(parts@) + split_acc(
                s@.subrange(i as int, len as int),
                s@.subrange(seg_start as int, i as int),
            ) == split_spaces_spec(s@),
        decreases len - i,
    {
        let ghost rest = s@.subrange(i as int, len as int);
        let ghost cur = s@.subrange(seg_start as int, i as int);
        let c = s.get_char(i);
        proof {
            assert(rest[0] == s@[i as int]);
            assert(rest.drop_first() =~= s@.subrange(i + 1, len as int));
        }
        if c == ' ' {
            let seg = s.substring_char(seg_start, i).to_owned();
            let ghost prev = parts@;
            parts.push(seg);
            proof {
                assert(strings_view(parts@) =~= strings_view(prev).push(cur));
                assert(s@.subrange(i + 1, i + 1) =~= Seq::<char>::empty());
                assert(split_acc(rest, cur) == seq![cur] + split_acc(
                    s@.subrange(i + 1, len as int),
                    Seq::empty(),
                ));
                assert(strings_view(prev).push(cur) + split_acc(
                    s@.subrange(i + 1, len as int),
                    Seq::empty(),
                ) =~= strings_view(prev) + (seq![cur] + split_acc(
                    s@.subrange(i + 1, len as int),
                    Seq::empty(),
                )));
            }
            seg_start = i + 1;
        } else {
            proof {
                assert(cur.push(s@[i as int]) =~= s@.subrange(seg_start as int, i + 1));
            }
        }
        i = i + 1;
    }
    let seg = s.substring_char(seg_start, len).to_owned();
    let ghost prev = parts@;
    let ghost cur = s@.subrange(seg_start as int, len as int);
    parts.push(seg);
    proof {
        assert(s@.subrange(len as int, len as int) =~= Seq::<char>::empty());
        assert(split_acc(s@.subrange(len as int, len as int), cur) == seq![cur]);
        assert(strings_view(parts@) =~= strings_view(prev).push(cur));
        assert(strings_view(prev).push(cur) =~= strings_view(prev) + seq![cur]);
    }
    parts
}

/// What a successful trigger launches, and that a trigger during a run is a
/// silent no-op: the full transition relation of `App::trigger_run`.
pub open spec fn trigger_spec(pre: App, post: App, req: Option<RunRequest>) -> bool {
    if pre.is_running {
        post == pre && req is None
    } else {
        &&& post.is_running
        &&& post.running == pre.running
        &&& post.counter == pre.counter
        &&& post.file == pre.file
        &&& post.result == pre.result
        &&& post.nav == pre.nav
        &&& post.throbber_frame == pre.throbber_frame
        &&& post.cmd == pre.cmd
        &&& req matches Some(r) && r.program@ == split_spaces_spec(command_view(pre))[0]
            && strings_view(r.args@) == split_spaces_spec(command_view(pre)).drop_first().push(
            pre.file@,
        )
    }
}

/// The settings and cosmetic state a completed run leaves untouched.
pub open spec fn same_settings(pre: App, post: App) -> bool {
    &&& post.running == pre.running
    &&& post.counter == pre.counter
    &&& post.file == pre.file
    &&& post.throbber_frame == pre.throbber_frame
    &&& post.cmd == pre.cmd
}

impl App {
    /// A fresh application: not yet quit, nothing run, nothing selected.
    pub fn new(file: String, cmd: Option<String>) -> (a: App)
        ensures
            a.running,
            a.counter == 0,
            a.file == file,
            a.result is None,
            a.nav.selected@.len() == 0,
            a.nav.expanded@.len() == 0,
            !a.is_running,
            a.throbber_frame == 0,
            a.cmd == cmd,
    {
        App {
            running: true,
            counter: 0,
            file,
            result: None,
            nav: NavState { selected: Vec::new(), expanded: Vec::new() },
            is_running: false,
            throbber_frame: 0,
            cmd,
        }
    }

    /// The command string to run: the configured one, else `cat`.
    pub fn command(&self) -> (r: String)
        ensures
            r@ == command_view(*self),
    {
        match &self.cmd {
            Some(cmd) => cmd.clone(),
            None => String::from_str("cat"),
        }
    }

    /// Advances the cosmetic progress indicator; nothing else changes.
    pub fn tick(&mut self)
        ensures
            final(self).throbber_frame == (if old(self).throbber_frame == u64::MAX {
                0u64
            } else {
                (old(self).throbber_frame + 1) as u64
            }),
            final(self).running == old(self).running,
            final(self).counter == old(self).counter,
            final(self).file == old(self).file,
            final(self).result == old(self).result,
            final(self).nav == old(self).nav,
            final(self).is_running == old(self).is_running,
            final(self).cmd == old(self).cmd,
    {
        if self.throbber_frame == u64::MAX {
            self.throbber_frame = 0;
        } else {
            self.throbber_frame = self.throbber_frame + 1;
        }
    }

    /// Stops the application: the main loop exits once `running` is false.
    pub fn quit(&mut self)
        ensures
            !final(self).running,
            final(self).counter == old(self).counter,
            final(self).file == old(self).file,
            final(self).result == old(self).result,
            final(self).nav == old(self).nav,
            final(self).is_running == old(self).is_running,
            final(self).throbber_frame == old(self).throbber_frame,
            final(self).cmd == old(self).cmd,
    {
        self.running = false;
    }

    /// Increments the counter, saturating at its maximum.
    pub fn increment_counter(&mut self)
        ensures
            final(self).counter == (if old(self).counter == u8::MAX {
                old(self).counter
            } else {
                (old(self).counter + 1) as u8
            }),
            final(self).running == old(self).running,
            final(self).file == old(self).file,
            final(self).result == old(self).result,
            final(self).nav == old(self).nav,
            final(self).is_running == old(self).is_running,
            final(self).throbber_frame == old(self).throbber_frame,
            final(self).cmd == old(self).cmd,
    {
        if let Some(res) = self.counter.checked_add(1) {
            self.counter = res;
        }
    }

    /// Decrements the counter, saturating at zero.
    pub fn decrement_counter(&mut self)
        ensures
            final(self).counter == (if old(self).counter == 0 {
                old(self).counter
            } else {
                (old(self).counter - 1) as u8
            }),
            final(self).running == old(self).running,
            final(self).file == old(self).file,
            final(self).result == old(self).result,
            final(self).nav == old(self).nav,
            final(self).is_running == old(self).is_running,
            final(self).throbber_frame == old(self).throbber_frame,
            final(self).cmd == old(self).cmd,
    {
        if let Some(res) = self.counter.checked_sub(1) {
            self.counter = res;
        }
    }

    /// Replaces the selected path; accepted in every state, touching nothing
    /// else.
    pub fn set_selected(&mut self, path: Vec<String>)
        ensures
            final(self).nav.selected == path,
            final(self).nav.expanded == old(self).nav.expanded,
            final(self).running == old(self).running,
            final(self).counter == old(self).counter,
            final(self).file == old(self).file,
            final(self).result == old(self).result,
            final(self).is_running == old(self).is_running,
            final(self).throbber_frame == old(self).throbber_frame,
            final(self).cmd == old(self).cmd,
    {
        self.nav.selected = path;
    }

    /// Triggers a run. A silent no-op while one is already in flight;
    /// otherwise sets the in-flight flag and returns the command to launch:
    /// the configured command split on spaces, the target file appended as
    /// the last argument.
    pub fn trigger_run(&mut self) -> (req: Option<RunRequest>)
        ensures
            trigger_spec(*old(self), *final(self), req),
    {
        if self.is_running {
            return None;
        }
        self.is_running = true;
        let cmd = self.command();
        let ghost cmdv = command_view(*old(self));
        let parts = split_spaces(cmd.as_str());
        let ghost split = split_spaces_spec(cmdv);
        proof {
            lemma_split_acc_len(cmdv, Seq::empty());
            assert(strings_view(parts@)[0] == parts@[0]@);
        }
        let program = parts[0].clone();
        let mut args: Vec<String> = Vec::new();
        proof {
            assert(strings_view(args@) =~= split.subrange(1, 1));
        }
        let n = parts.len();
        let mut i: usize = 1;
        while i < n
            invariant
                1 <= i <= n,
                n == parts@.len(),
                strings_view(parts@) == split,
                strings_view(args@) == split.subrange(1, i as int),
            decreases n - i,
        {
            let ghost prev = args@;
            args.push(parts[i].clone());
            proof {
                assert(parts@[i as int]@ == split[i as int]);
                assert(strings_view(args@) =~= strings_view(prev).push(split[i as int]));
                assert(strings_view(prev).push(split[i as int]) =~= split.subrange(1, i + 1));
            }
            i = i + 1;
        }
        let ghost prev = args@;
        args.push(self.file.clone());
        proof {
            assert(strings_view(args@) =~= strings_view(prev).push(old(self).file@));
            assert(split.subrange(1, n as int) =~= split.drop_first());
            assert(strings_view(args@) =~= split.drop_first().push(old(self).file@));
        }
        Some(RunRequest { program, args })
    }

    /// Applies one event. A completed run fully replaces the previous result:
    /// on success the report is materialized (when its counts are consistent;
    /// otherwise a `Counts` error is stored), navigation is reset to the
    /// auto-expanded failing suites and the first root as default selection,
    /// and the in-flight flag is cleared; on failure the error replaces
    /// whatever was displayed. A trigger request behaves as `trigger_run`.
    pub fn update(&mut self, action: Action) -> (req: Option<RunRequest>)
        ensures
            match action {
                Action::TestStarted => {
                    &&& req is None
                    &&& final(self).is_running
                    &&& same_settings(*old(self), *final(self))
                    &&& final(self).result == old(self).result
                    &&& final(self).nav == old(self).nav
                },
                Action::TriggerRun => trigger_spec(*old(self), *final(self), req),
                Action::TestResult(res) => {
                    &&& req is None
                    &&& !final(self).is_running
                    &&& same_settings(*old(self), *final(self))
                    &&& match res {
                        Ok(report) => {
                            if report_wf(report@) {
                                &&& final(self).result matches Some(Ok(run)) && is_build_of(
                                    report@,
                                    run,
                                )
                                &&& strings_view(final(self).nav.expanded@) == expanded_in(report@)
                                &&& (if suite_nodes(report@).len() > 0 {
                                    final(self).nav.selected@.len() == 1
                                        && final(self).nav.selected@[0]@ == suite_nodes(
                                        report@,
                                    )[0].id
                                } else {
                                    final(self).nav.selected@.len() == 0
                                })
                            } else {
                                &&& final(self).result matches Some(
                                    Err(RunError::Counts),
                                )
                                &&& final(self).nav.selected@.len() == 0
                                &&& final(self).nav.expanded@.len() == 0
                            }
                        },
                        Err(e) => {
                            &&& final(self).result == Some(Err::<TestRun, RunError>(e))
                            &&& final(self).nav.selected@.len() == 0
                            &&& final(self).nav.expanded@.len() == 0
                        },
                    }
                },
            },
    {
        match action {
            Action::TestResult(res) => {
                match res {
                    Ok(report) => {
                        if report_is_wf(&report) {
                            let ghost rv = report@;
                            let expanded = open_all_failed(&report);
                            let run = TestRun::new(report);
                            let sel = default_selection(&run);
                            let mut selected: Vec<String> = Vec::new();
                            proof {
                                crate::tree::lemma_nodes_view(run.tree@);
                            }
                            match sel {
                                Some(id) => {
                                    selected.push(id);
                                },
                                None => {},
                            }
                            self.nav = NavState { selected, expanded };
                            self.result = Some(Ok(run));
                        } else {
                            self.nav = NavState { selected: Vec::new(), expanded: Vec::new() };
                            self.result = Some(Err(RunError::Counts));
                        }
                        self.is_running = false;
                        None
                    },
                    Err(e) => {
                        self.nav = NavState { selected: Vec::new(), expanded: Vec::new() };
                        self.result = Some(Err(e));
                        self.is_running = false;
                        None
                    },
                }
            },
            Action::TestStarted => {
                self.is_running = true;
                None
            },
            Action::TriggerRun => self.trigger_run(),
        }
    }

    /// The detail text for the currently selected case: its status message
    /// and text, then its captured output; empty when nothing matching is
    /// selected or no run is displayed.
    pub fn selected_detail(&self) -> (r: String)
        ensures
            r@ == selected_detail_of(*self),
    {
        match &self.result {
            Some(Ok(run)) => {
                if self.nav.selected.len() > 0 {
                    let id = &self.nav.selected[self.nav.selected.len() - 1];
                    detail_text(run, id.as_str())
                } else {
                    String::new()
                }
            },
            _ => String::new(),
        }
    }
}

/// Triggering twice in succession launches at most one run: whatever the
/// starting state, the second trigger launches nothing, and if no run was in
/// flight at first the first trigger is the one that launches.
pub proof fn lemma_single_flight(
    s0: App,
    s1: App,
    s2: App,
    r1: Option<RunRequest>,
    r2: Option<RunRequest>,
)
    requires
        trigger_spec(s0, s1, r1),
        trigger_spec(s1, s2, r2),
    ensures
        r2 is None,
        !s0.is_running ==> r1 is Some,
{
}

/// The status message shown for a case: empty for success, else the message
/// and the detail text on separate lines.
pub open spec fn message_of(st: StatusV) -> Seq<char> {
    match st {
        StatusV::Success => Seq::empty(),
        StatusV::Failure { message, text } => message + "\n"@ + text,
        StatusV::Error { message, text } => message + "\n"@ + text,
        StatusV::Skipped { message, text } => message + "\n"@ + text,
    }
}

/// The detail panel's text for a case identifier: the status message, a line
/// break, then the captured output; empty when the identifier is unknown.
pub open spec fn detail_of(m: Map<Seq<char>, TestInfoV>, id: Seq<char>) -> Seq<char> {
    if m.contains_key(id) {
        message_of(m[id].result) + "\n"@ + (match m[id].output {
            Some(o) => o,
            None => Seq::empty(),
        })
    } else {
        Seq::empty()
    }
}

/// The detail text of the selected case of the displayed run, if any.
pub open spec fn selected_detail_of(a: App) -> Seq<char> {
    match a.result {
        Some(res) => match res {
            Ok(run) => if a.nav.selected@.len() > 0 {
                detail_of(infos_view(run.cases@), a.nav.selected@.last()@)
            } else {
                Seq::empty()
            },
            Err(_) => Seq::empty(),
        },
        None => Seq::empty(),
    }
}

/// Joins a status message and its detail text with a line break.
fn join_message(message: &String, text: &String) -> (r: String)
    ensures
        r@ == message@ + "\n"@ + text@,
{
    let mut out = message.clone();
    out.append("\n");
    out.append(text.as_str());
    out
}

/// The status message of a case outcome: empty for success, else the message
/// and detail text.
pub fn extract_message(status: &crate::report::Status) -> (r: String)
    ensures
        r@ == message_of(status@),
{
    match status {
        crate::report::Status::Success => String::new(),
        crate::report::Status::Failure { message, text } => join_message(message, text),
        crate::report::Status::Error { message, text } => join_message(message, text),
        crate::report::Status::Skipped { message, text } => join_message(message, text),
    }
}

/// The detail panel's text for one case identifier of a run.
pub fn detail_text(run: &TestRun, id: &str) -> (r: String)
    ensures
        r@ == detail_of(infos_view(run.cases@), id@),
{
    match run.cases.get(id) {
        Some(info) => {
            let mut out = extract_message(&info.result);
            out.append("\n");
            match &info.output {
                Some(o) => {
                    out.append(o.as_str());
                },
                None => {
                    proof {
                        assert((message_of(info.result@) + "\n"@) + Seq::<char>::empty()
                            =~= message_of(info.result@) + "\n"@);
                    }
                },
            }
            out
        },
        None => String::new(),
    }
}

} // verus!
