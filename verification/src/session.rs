//! Recording sessions and the decisions of the main loop.
//!
//! The main loop alternates outside work (tray commands, clicks, capturing,
//! writing files, notifications) with decisions. The decisions live here as
//! a state machine, [`Recorder`]: it is handed each command or captured step
//! and says what the loop has to do next.

use vstd::prelude::*;
use vstd::string::StringExecFns;
use crate::i18n::Strings;
use crate::model::{Step, step_image_name};
use crate::text::{decimal, replace, replace_str, usize_to_string};
use crate::tray::Cmd;

verus! {

/// A running recording session.
#[derive(Debug)]
pub struct Session {
    /// The session folder.
    pub dir: String,
    /// Start time, preformatted.
    pub started: String,
    /// The captured steps, in order.
    pub steps: Vec<Step>,
}

/// Steps numbered 1, 2, 3, … in order.
pub open spec fn numbered(steps: Seq<Step>) -> bool {
    forall|i: int| 0 <= i < steps.len() ==> (#[trigger] steps[i]).index == i + 1
}

/// Steps numbered 1, 2, 3, … in order, each with the screenshot file of its
/// number.
pub open spec fn numbered_with_images(steps: Seq<Step>) -> bool {
    forall|i: int|
        0 <= i < steps.len() ==> (#[trigger] steps[i]).index == i + 1 && steps[i].image_file@
            == step_image_name((i + 1) as nat)
}

/// The index that the next captured step gets.
pub open spec fn next_index_of(steps: Seq<Step>) -> Option<usize> {
    if steps.len() < usize::MAX {
        Some((steps.len() + 1) as usize)
    } else {
        None
    }
}

impl Session {
    /// A new session without steps.
    pub fn new(dir: String, started: String) -> (res: Session)
        ensures
            res.dir == dir,
            res.started == started,
            res.steps@.len() == 0,
    {
        Session { dir, started, steps: Vec::new() }
    }

    /// The 1-based index of the next step.
    pub fn next_index(&self) -> (res: Option<usize>)
        ensures
            res == next_index_of(self.steps@),
    {
        let n: usize = self.steps.len();
        if n < usize::MAX {
            Some(n + 1)
        } else {
            None
        }
    }
}

/// Law: a session whose steps are numbered 1..n stays so when the next step
/// gets the index that `next_index` hands out.
pub proof fn law_numbering_kept(steps: Seq<Step>, step: Step)
    requires
        numbered(steps),
        next_index_of(steps) == Some(step.index),
    ensures
        numbered(steps.push(step)),
{
    assert forall|i: int| 0 <= i < steps.push(step).len() implies (#[trigger] steps.push(
        step,
    )[i]).index == i + 1 by {
        if i < steps.len() {
            assert(steps.push(step)[i] == steps[i]);
        }
    }
}

/// What the main loop has to do after a command.
#[derive(Debug)]
pub enum Action {
    /// Nothing.
    Nothing,
    /// Create a new session folder, then hand it to [`Recorder::begin`]
    /// (and enable the accessibility bridge, reset the step counter, show
    /// the recording state and notify).
    BeginSession,
    /// A session ended: write its final report when `write_report`, restore
    /// the accessibility state, and show `notice` when there is one.
    EndSession { session: Session, write_report: bool, notice: Option<String> },
    /// Open this folder in the file manager.
    OpenFolder(String),
    /// A step was recorded: show `steps` steps in the tray and rewrite the
    /// live reports (images referenced by file name) with every step so far,
    /// so that stopping abruptly loses no recorded step.
    WriteLiveReports { steps: usize },
}

/// The state of the main loop.
#[derive(Debug)]
pub struct Recorder {
    /// The session being recorded, if any.
    pub session: Option<Session>,
    /// The folder of the last session started.
    pub last_dir: Option<String>,
    /// Whether the loop keeps running.
    pub running: bool,
}

/// Whether an action ends exactly this session: the report is due when it
/// has steps, with the given notice.
pub open spec fn ends(a: Action, s: Session, notice: Option<Seq<char>>) -> bool {
    match a {
        Action::EndSession { session, write_report, notice: n } => session == s && write_report == (
        s.steps@.len() > 0) && n.deep_view() == notice,
        _ => false,
    }
}

/// The notice after stopping: `notify_stopped` with the step count filled in.
pub open spec fn stopped_notice(t: Strings, steps: nat) -> Seq<char> {
    replace(t.notify_stopped@, "{n}"@, decimal(steps))
}

impl Recorder {
    /// Idle and running: no session, no folder yet.
    pub fn new() -> (res: Recorder)
        ensures
            res.session is None,
            res.last_dir is None,
            res.running,
    {
        Recorder { session: None, last_dir: None, running: true }
    }

    /// Whether a recording runs.
    pub fn is_recording(&self) -> (res: bool)
        ensures
            res == self.session is Some,
    {
        self.session.is_some()
    }

    /// Decides what a tray command does:
    /// - start: begin a session unless one is being recorded;
    /// - stop: end the session being recorded, with the stopped notice;
    /// - open folder: open the last session's folder, if there is one;
    /// - quit: end the session being recorded (no notice) and stop running.
    pub fn handle(&mut self, cmd: Cmd, t: &Strings) -> (res: Action)
        ensures
            match cmd {
                Cmd::Start => *final(self) == *old(self) && (old(self).session is None ==> res
                    is BeginSession) && (old(self).session is Some ==> res is Nothing),
                Cmd::Stop => match old(self).session {
                    Some(s) => final(self).session is None && final(self).last_dir == old(
                        self,
                    ).last_dir && final(self).running == old(self).running && ends(
                        res,
                        s,
                        Some(stopped_notice(*t, s.steps@.len())),
                    ),
                    None => *final(self) == *old(self) && res is Nothing,
                },
                Cmd::OpenFolder => *final(self) == *old(self) && match old(self).last_dir {
                    Some(d) => res matches Action::OpenFolder(p) && p@ == d@,
                    None => res is Nothing,
                },
                Cmd::Quit => final(self).session is None && final(self).last_dir == old(
                    self,
                ).last_dir && !final(self).running && match old(self).session {
                    Some(s) => ends(res, s, None),
                    None => res is Nothing,
                },
            },
    {
        match cmd {
            Cmd::Start => {
                if self.session.is_none() {
                    Action::BeginSession
                } else {
                    Action::Nothing
                }
            },
            Cmd::Stop => {
                match self.session.take() {
                    Some(s) => {
                        let n = usize_to_string(s.steps.len());
                        let notice = replace_str(t.notify_stopped, "{n}", n.as_str());
                        let write_report: bool = s.steps.len() > 0;
                        Action::EndSession { session: s, write_report, notice: Some(notice) }
                    },
                    None => Action::Nothing,
                }
            },
            Cmd::OpenFolder => {
                match &self.last_dir {
                    Some(d) => Action::OpenFolder(String::from_str(d.as_str())),
                    None => Action::Nothing,
                }
            },
            Cmd::Quit => {
                self.running = false;
                match self.session.take() {
                    Some(s) => {
                        let write_report: bool = s.steps.len() > 0;
                        Action::EndSession { session: s, write_report, notice: None }
                    },
                    None => Action::Nothing,
                }
            },
        }
    }

    /// Starts recording into the session folder `dir` (created by the
    /// caller after [`Action::BeginSession`]), started at `started`.
    pub fn begin(&mut self, dir: String, started: String)
        requires
            old(self).session is None,
        ensures
            final(self).session matches Some(s) && s.dir@ == dir@ && s.started == started
                && s.steps@.len() == 0,
            final(self).last_dir matches Some(d) && d@ == dir@,
            final(self).running == old(self).running,
    {
        let keep = String::from_str(dir.as_str());
        self.session = Some(Session::new(dir, started));
        self.last_dir = Some(keep);
    }

    /// The index for a click: the next step's index while recording, none
    /// otherwise (the click is ignored).
    pub fn click_index(&self) -> (res: Option<usize>)
        ensures
            match self.session {
                Some(s) => res == next_index_of(s.steps@),
                None => res is None,
            },
    {
        match &self.session {
            Some(s) => s.next_index(),
            None => None,
        }
    }

    /// Adds a captured step to the session being recorded and asks for the
    /// live reports to be rewritten with the new step count; nothing when no
    /// session is being recorded.
    pub fn record(&mut self, step: Step) -> (res: Action)
        ensures
            final(self).last_dir == old(self).last_dir,
            final(self).running == old(self).running,
            match old(self).session {
                Some(s) => final(self).session matches Some(f) && f.dir == s.dir && f.started
                    == s.started && f.steps@ == s.steps@.push(step) && res == (Action::WriteLiveReports {
                    steps: f.steps@.len() as usize,
                }),
                None => final(self).session is None && res is Nothing,
            },
    {
        match self.session.take() {
            Some(mut s) => {
                s.steps.push(step);
                let n: usize = s.steps.len();
                self.session = Some(s);
                Action::WriteLiveReports { steps: n }
            },
            None => Action::Nothing,
        }
    }

    /// The click source went away: the loop ends.
    pub fn disconnect(&mut self)
        ensures
            final(self).session == old(self).session,
            final(self).last_dir == old(self).last_dir,
            !final(self).running,
    {
        self.running = false;
    }
}

/// Law: a click while recording, captured (`Step::captured`) with the index
/// that `click_index` hands out and recorded, keeps the session's steps
/// numbered 1..n, each with the screenshot file of its number.
pub proof fn law_recorded_steps_numbered(before: Seq<Step>, step: Step)
    requires
        numbered_with_images(before),
        next_index_of(before) == Some(step.index),
        step.image_file@ == step_image_name(step.index as nat),
    ensures
        numbered_with_images(before.push(step)),
        step.index == before.len() + 1,
{
    assert forall|i: int| 0 <= i < before.push(step).len() implies (#[trigger] before.push(
        step,
    )[i]).index == i + 1 && before.push(step)[i].image_file@ == step_image_name(
        (i + 1) as nat,
    ) by {
        if i < before.len() {
            assert(before.push(step)[i] == before[i]);
        }
    }
}

// ---------------------------------------------------------------------------
// Output folder
// ---------------------------------------------------------------------------

/// Why no output folder could be chosen.
#[derive(Debug, Clone, Copy, PartialEq, Eq, Structural)]
pub enum OutputBaseError {
    /// No command-line folder and `HOME` is not set.
    HomeNotSet,
}

/// `PathBuf::push` of a relative component: a `/` in between unless the
/// base is empty or already ends with one.
pub open spec fn path_join(base: Seq<char>, comp: Seq<char>) -> Seq<char> {
    if base.len() == 0 || base.last() == '/' {
        base + comp
    } else {
        base + seq!['/'] + comp
    }
}

/// The base folder for sessions: the command-line argument unless it looks
/// like an option (starts with `-`), otherwise `$HOME/Pictures/stepshot`.
pub open spec fn output_base_of(arg: Option<Seq<char>>, home: Option<Seq<char>>) -> Result<
    Seq<char>,
    OutputBaseError,
> {
    match arg {
        Some(a) => if a.len() > 0 && a[0] == '-' {
            match home {
                Some(h) => Ok(path_join(path_join(h, "Pictures"@), "stepshot"@)),
                None => Err(OutputBaseError::HomeNotSet),
            }
        } else {
            Ok(a)
        },
        None => match home {
            Some(h) => Ok(path_join(path_join(h, "Pictures"@), "stepshot"@)),
            None => Err(OutputBaseError::HomeNotSet),
        },
    }
}

/// Appends a relative path component, as `PathBuf::push` does.
pub fn join_path(base: String, comp: &str) -> (res: String)
    ensures
        res@ == path_join(base@, comp@),
{
    let cs = crate::text::chars_of(base.as_str());
    let mut out = base;
    if cs.len() > 0 && cs[cs.len() - 1] != '/' {
        out.push('/');
    }
    out.append(comp);
    out
}

/// The folder of a session started at `stamp`: `session-<stamp>` inside
/// the base folder.
pub fn session_folder(base: String, stamp: &str) -> (res: String)
    ensures
        res@ == path_join(base@, "session-"@ + stamp@),
{
    let mut name = String::from_str("session-");
    name.append(stamp);
    join_path(base, name.as_str())
}

/// The folder of a single-step self-test run at `stamp`: `oneshot-<stamp>`
/// inside the base folder.
pub fn oneshot_folder(base: String, stamp: &str) -> (res: String)
    ensures
        res@ == path_join(base@, "oneshot-"@ + stamp@),
{
    let mut name = String::from_str("oneshot-");
    name.append(stamp);
    join_path(base, name.as_str())
}

/// Base folder for sessions, from the first command-line argument (if
/// any) and the value of `HOME` (if set).
pub fn output_base(arg: Option<String>, home: Option<String>) -> (res: Result<
    String,
    OutputBaseError,
>)
    ensures
        match (res, output_base_of(arg.deep_view(), home.deep_view())) {
            (Ok(p), Ok(q)) => p@ == q,
            (Err(e), Err(f)) => e == f,
            _ => false,
        },
{
    match arg {
        Some(a) => {
            let cs = crate::text::chars_of(a.as_str());
            if !(cs.len() > 0 && cs[0] == '-') {
                return Ok(a);
            }
        },
        None => {},
    }
    match home {
        Some(h) => {
            let p = join_path(h, "Pictures");
            Ok(join_path(p, "stepshot"))
        },
        None => Err(OutputBaseError::HomeNotSet),
    }
}

/// Law: a first command-line argument that does not start with `-` is the
/// output folder, whether `HOME` is set or not.
pub proof fn law_command_line_folder_wins(a: Seq<char>, home: Option<Seq<char>>)
    requires
        !(a.len() > 0 && a[0] == '-'),
    ensures
        output_base_of(Some(a), home) == Ok::<Seq<char>, OutputBaseError>(a),
{
}

/// Law: without such an argument (none, or one that starts with `-`) the
/// output folder is `Pictures/stepshot` inside `HOME`, with one `/` between
/// them unless `HOME` is empty or already ends with one; it fails exactly
/// when `HOME` is not set.
pub proof fn law_home_folder(arg: Option<Seq<char>>, home: Option<Seq<char>>)
    requires
        arg matches Some(a) ==> a.len() > 0 && a[0] == '-',
    ensures
        home matches Some(h) ==> output_base_of(arg, home) == Ok::<Seq<char>, OutputBaseError>(
            if h.len() == 0 || h[h.len() - 1] == '/' {
                h + "Pictures/stepshot"@
            } else {
                h + "/Pictures/stepshot"@
            },
        ),
        home is None ==> output_base_of(arg, home) == Err::<Seq<char>, OutputBaseError>(
            OutputBaseError::HomeNotSet,
        ),
{
    reveal_strlit("Pictures");
    reveal_strlit("stepshot");
    reveal_strlit("Pictures/stepshot");
    reveal_strlit("/Pictures/stepshot");
    if let Some(h) = home {
        let p = path_join(h, "Pictures"@);
        assert(p.len() > 0);
        assert(p.last() == 's');
        if h.len() == 0 || h[h.len() - 1] == '/' {
            assert(path_join(p, "stepshot"@) =~= h + "Pictures/stepshot"@);
        } else {
            assert(path_join(p, "stepshot"@) =~= h + "/Pictures/stepshot"@);
        }
    }
}

} // verus!
