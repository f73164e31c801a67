//! Session state and the dispatcher: stored defaults, the problem
//! cache, presets, and the per-command state machine that validates
//! preconditions, resolves effective values, substitutes the problem
//! identifier and decides which outside action to take.  The actions
//! themselves (process runs, judge calls) are carried out by the
//! caller; a failed outside call must simply not feed a result back,
//! which leaves the session exactly as it was.

use vstd::prelude::*;
use vstd::string::StringExecFns;
use crate::command::{opt_view, Command, CommandView, Setting, SettingView};
use crate::data::{
    gate_reasons, spec_any_interactive, spec_gate_reasons, spec_id_ok, any_interactive,
    slash_count, Credentials, GateQuery, Preset, Problem, ProblemId,
};
use crate::strutil::{str_eq, strings_view};
use crate::subst::{spec_substitute, substitute_problem};

verus! {

/// Why a command could not be dispatched.
#[derive(Debug)]
pub enum CommandExecuteError {
    UnknownPreset,
    ProblemNotSpecified { verb: String },
    InvalidProblemId { input: String },
    RunNotSupported { reasons: Vec<String> },
    TestNotSupported { reasons: Vec<String> },
    LanguageNotSpecified,
    FileNotSpecified,
    FileNotFound { file: String },
}

/// The single human-readable line each dispatch error is reported as.
pub open spec fn spec_execute_error_message(e: CommandExecuteError) -> Seq<char> {
    match e {
        CommandExecuteError::UnknownPreset => "preset: Unknown preset name"@,
        CommandExecuteError::ProblemNotSpecified { verb } => verb@ + ": Problem not specified"@,
        CommandExecuteError::InvalidProblemId { input } => input@,
        CommandExecuteError::RunNotSupported { reasons } =>
            "run: Current problem does not support run. Reason: "@ + spec_join(
                strings_view(reasons@),
            ),
        CommandExecuteError::TestNotSupported { reasons } =>
            "test: Current problem does not support test. Reason: "@ + spec_join(
                strings_view(reasons@),
            ),
        CommandExecuteError::LanguageNotSpecified => "submit: Language not specified"@,
        CommandExecuteError::FileNotSpecified => "submit: Solution file not specified"@,
        CommandExecuteError::FileNotFound { file } => "submit: File `"@ + file@
            + "` does not exist"@,
    }
}

impl CommandExecuteError {
    /// Renders the error as its report line.
    pub fn message(&self) -> (r: String)
        ensures
            r@ == spec_execute_error_message(*self),
    {
        match self {
            CommandExecuteError::UnknownPreset => String::from_str("preset: Unknown preset name"),
            CommandExecuteError::ProblemNotSpecified { verb } => crate::strutil::concat2(
                verb.as_str(),
                ": Problem not specified",
            ),
            CommandExecuteError::InvalidProblemId { input } => input.clone(),
            CommandExecuteError::RunNotSupported { reasons } => {
                let joined = join_reasons(reasons);
                crate::strutil::concat2(
                    "run: Current problem does not support run. Reason: ",
                    joined.as_str(),
                )
            },
            CommandExecuteError::TestNotSupported { reasons } => {
                let joined = join_reasons(reasons);
                crate::strutil::concat2(
                    "test: Current problem does not support test. Reason: ",
                    joined.as_str(),
                )
            },
            CommandExecuteError::LanguageNotSpecified => String::from_str(
                "submit: Language not specified",
            ),
            CommandExecuteError::FileNotSpecified => String::from_str(
                "submit: Solution file not specified",
            ),
            CommandExecuteError::FileNotFound { file } => crate::strutil::concat3(
                "submit: File `",
                file.as_str(),
                "` does not exist",
            ),
        }
    }
}

/// The outside work one dispatched command asks for.  `Idle` asks for
/// nothing.  After a `FetchProblem` the caller hands the fetched
/// problem back through `Session::store_problem`.
#[derive(Debug)]
pub enum Action {
    Idle,
    Login { bojautologin: String, onlinejudge: String },
    RunInit { cmd: String },
    ApplyPreset { settings: Vec<Setting> },
    FetchProblem { id: ProblemId },
    ShowProblem { init: Option<String> },
    RunSilent { cmd: String },
    RunInteractive { cmd: String },
    RunTimed { cmd: String, input_path: String, deadline_ms: u64 },
    RunTests { cmd: String, deadline_ms: u64, diff: bool, notice: Option<String> },
    SubmitSolution { lang: String, file: String },
    ShowHelp,
    Terminate,
}

/// Views a sequence of settings.
pub open spec fn settings_views(v: Seq<Setting>) -> Seq<SettingView> {
    v.map_values(|s: Setting| s@)
}

/// The deadline for a timed run, in milliseconds: three times the
/// problem's time limit plus two seconds, capped at ten seconds.
pub open spec fn spec_deadline(time_millis: u64) -> int {
    if 3 * time_millis + 2000 > 10000 {
        10000
    } else {
        3 * time_millis + 2000
    }
}

/// Computes the deadline for a timed run.
pub fn run_deadline_millis(time_millis: u64) -> (r: u64)
    ensures
        r == spec_deadline(time_millis),
{
    if time_millis > 2666 {
        10000
    } else {
        3 * time_millis + 2000
    }
}

/// An override wins over the stored default.
pub open spec fn spec_effective(over: Option<Seq<char>>, stored: Seq<char>) -> Seq<char> {
    match over {
        Some(v) => v,
        None => stored,
    }
}

/// Reasons joined for display: `a, b, c`.
pub open spec fn spec_join(rs: Seq<Seq<char>>) -> Seq<char>
    decreases rs.len(),
{
    if rs.len() == 0 {
        Seq::empty()
    } else if rs.len() == 1 {
        rs[0]
    } else {
        rs[0] + ", "@ + spec_join(rs.skip(1))
    }
}

/// Joins reason texts with commas.
pub fn join_reasons(rs: &Vec<String>) -> (r: String)
    ensures
        r@ == spec_join(strings_view(rs@)),
{
    let ghost rv = strings_view(rs@);
    if rs.len() == 0 {
        let r = String::new();
        return r;
    }
    let mut out = rs[0].clone();
    let mut i: usize = 1;
    proof {
        lemma_join_as_tail(rv);
        assert(rv[0] == rs@[0]@);
    }
    while i < rs.len()
        invariant
            1 <= i <= rs@.len(),
            rv == strings_view(rs@),
            rv.len() == rs@.len(),
            spec_join(rv) == out@ + spec_join_tail(rv.skip(i as int)),
        decreases rs@.len() - i,
    {
        let ghost old_out = out@;
        out.append(", ");
        out.append(rs[i].as_str());
        proof {
            assert(rv.skip(i as int)[0] == rv[i as int]);
            assert(rv.skip(i as int).skip(1) =~= rv.skip(i as int + 1));
            assert(out@ =~= old_out + (", "@ + rv[i as int]));
        }
        i = i + 1;
    }
    proof {
        assert(rv.skip(i as int) =~= Seq::<Seq<char>>::empty());
        assert(out@ + Seq::<char>::empty() =~= out@);
    }
    out
}

/// The tail of a joined reason list: each element preceded by `, `.
pub open spec fn spec_join_tail(rs: Seq<Seq<char>>) -> Seq<char>
    decreases rs.len(),
{
    if rs.len() == 0 {
        Seq::empty()
    } else {
        ", "@ + rs[0] + spec_join_tail(rs.skip(1))
    }
}

proof fn lemma_join_as_tail(rs: Seq<Seq<char>>)
    requires
        rs.len() > 0,
    ensures
        spec_join(rs) == rs[0] + spec_join_tail(rs.skip(1)),
    decreases rs.len(),
{
    if rs.len() == 1 {
        assert(rs.skip(1) =~= Seq::<Seq<char>>::empty());
        assert(rs[0] + Seq::<char>::empty() =~= rs[0]);
    } else {
        lemma_join_as_tail(rs.skip(1));
        assert(rs.skip(1)[0] == rs[1]);
        assert(rs.skip(1).skip(1) =~= rs.skip(2));
        assert(rs[0] + ", "@ + spec_join(rs.skip(1)) =~= rs[0] + (", "@ + rs.skip(1)[0]
            + spec_join_tail(rs.skip(1).skip(1))));
    }
}

/// Two identifiers denote the same problem.
pub open spec fn id_eqv(a: ProblemId, b: ProblemId) -> bool {
    a.code_spec() == b.code_spec() && (a is ContestProblem <==> b is ContestProblem)
}

/// First index in the cache whose problem has the given identifier
/// code, or the cache length when none has.
pub open spec fn spec_find_by_code(ps: Seq<Problem>, code: Seq<char>) -> int
    decreases ps.len(),
{
    if ps.len() == 0 {
        0
    } else if ps[0].id.code_spec() == code {
        0
    } else {
        1 + spec_find_by_code(ps.skip(1), code)
    }
}

proof fn lemma_find_by_code(ps: Seq<Problem>, code: Seq<char>)
    ensures
        0 <= spec_find_by_code(ps, code) <= ps.len(),
        spec_find_by_code(ps, code) < ps.len() ==> ps[spec_find_by_code(ps, code)].id.code_spec()
            == code,
        forall|j: int|
            0 <= j < spec_find_by_code(ps, code) ==> (#[trigger] ps[j]).id.code_spec() != code,
    decreases ps.len(),
{
    if ps.len() > 0 && ps[0].id.code_spec() != code {
        lemma_find_by_code(ps.skip(1), code);
        assert(forall|j: int|
            1 <= j < spec_find_by_code(ps, code) ==> ps[j] == ps.skip(1)[j - 1]);
    }
}

/// First index of a preset with the given name, or the list length.
pub open spec fn spec_find_preset(ps: Seq<Preset>, name: Seq<char>) -> int
    decreases ps.len(),
{
    if ps.len() == 0 {
        0
    } else if ps[0].name@ == name {
        0
    } else {
        1 + spec_find_preset(ps.skip(1), name)
    }
}

/// The present fields of a preset, as settings, in the fixed order of
/// application: credentials, lang, file, init, build, cmd, input.
pub open spec fn preset_settings(p: Preset) -> Seq<SettingView> {
    (match p.credentials {
        Some(c) => seq![
            SettingView::Credentials {
                bojautologin: c.bojautologin@,
                onlinejudge: c.onlinejudge@,
            },
        ],
        None => Seq::<SettingView>::empty(),
    }) + (match p.lang {
        Some(v) => seq![SettingView::Lang(v@)],
        None => Seq::<SettingView>::empty(),
    }) + (match p.file {
        Some(v) => seq![SettingView::File(v@)],
        None => Seq::<SettingView>::empty(),
    }) + (match p.init {
        Some(v) => seq![SettingView::Init(v@)],
        None => Seq::<SettingView>::empty(),
    }) + (match p.build {
        Some(v) => seq![SettingView::Build(v@)],
        None => Seq::<SettingView>::empty(),
    }) + (match p.cmd {
        Some(v) => seq![SettingView::Cmd(v@)],
        None => Seq::<SettingView>::empty(),
    }) + (match p.input {
        Some(v) => seq![SettingView::Input(v@)],
        None => Seq::<SettingView>::empty(),
    })
}

impl Preset {
    /// The present fields as settings, in application order.
    #[verifier::rlimit(60)]
    pub fn settings(&self) -> (r: Vec<Setting>)
        ensures
            settings_views(r@) == preset_settings(*self),
    {
        let mut r: Vec<Setting> = Vec::new();
        match &self.credentials {
            Some(c) => {
                r.push(
                    Setting::Credentials(
                        Credentials {
                            bojautologin: c.bojautologin.clone(),
                            onlinejudge: c.onlinejudge.clone(),
                        },
                    ),
                );
            },
            None => {},
        }
        match &self.lang {
            Some(v) => {
                r.push(Setting::Lang(v.clone()));
            },
            None => {},
        }
        match &self.file {
            Some(v) => {
                r.push(Setting::File(v.clone()));
            },
            None => {},
        }
        match &self.init {
            Some(v) => {
                r.push(Setting::Init(v.clone()));
            },
            None => {},
        }
        match &self.build {
            Some(v) => {
                r.push(Setting::Build(v.clone()));
            },
            None => {},
        }
        match &self.cmd {
            Some(v) => {
                r.push(Setting::Cmd(v.clone()));
            },
            None => {},
        }
        match &self.input {
            Some(v) => {
                r.push(Setting::Input(v.clone()));
            },
            None => {},
        }
        proof {
            assert(settings_views(r@) =~= preset_settings(*self));
        }
        r
    }
}

/// Which stored default a setting writes.
pub enum SettingKind {
    Credentials,
    Lang,
    File,
    Init,
    Build,
    Cmd,
    Input,
}

/// The field a setting writes.
pub open spec fn setting_kind(sv: SettingView) -> SettingKind {
    match sv {
        SettingView::Credentials { .. } => SettingKind::Credentials,
        SettingView::Lang(_) => SettingKind::Lang,
        SettingView::File(_) => SettingKind::File,
        SettingView::Init(_) => SettingKind::Init,
        SettingView::Build(_) => SettingKind::Build,
        SettingView::Cmd(_) => SettingKind::Cmd,
        SettingView::Input(_) => SettingKind::Input,
    }
}

/// All of the session except the named field (and nothing beyond the
/// stored defaults) is unchanged.
pub open spec fn unchanged_except(pre: Session, post: Session, k: SettingKind) -> bool {
    &&& (!(k is Credentials) ==> post.credentials == pre.credentials)
    &&& (!(k is Lang) ==> post.lang == pre.lang)
    &&& (!(k is File) ==> post.file == pre.file)
    &&& (!(k is Init) ==> post.init == pre.init)
    &&& (!(k is Build) ==> post.build == pre.build)
    &&& (!(k is Cmd) ==> post.cmd == pre.cmd)
    &&& (!(k is Input) ==> post.input == pre.input)
    &&& post.current == pre.current
    &&& post.problems == pre.problems
    &&& post.presets == pre.presets
}

/// The setting's value is what the session now stores.
pub open spec fn setting_stored(post: Session, sv: SettingView) -> bool {
    match sv {
        SettingView::Credentials { bojautologin, onlinejudge } => post.credentials.bojautologin@
            == bojautologin && post.credentials.onlinejudge@ == onlinejudge,
        SettingView::Lang(v) => post.lang@ == v,
        SettingView::File(v) => post.file@ == v,
        SettingView::Init(v) => post.init@ == v,
        SettingView::Build(v) => post.build@ == v,
        SettingView::Cmd(v) => post.cmd@ == v,
        SettingView::Input(v) => post.input@ == v,
    }
}

/// Applying a setting mutates exactly the corresponding field.
pub open spec fn setting_applied(pre: Session, post: Session, sv: SettingView) -> bool {
    unchanged_except(pre, post, setting_kind(sv)) && setting_stored(post, sv)
}

/// The init command to run for the current problem, when an init
/// template is stored and a problem is selected.
pub open spec fn spec_init_cmd(s: Session) -> Option<Seq<char>> {
    match s.current {
        Some(i) => if s.init@.len() > 0 && i < s.problems@.len() {
            Some(spec_substitute(s.init@, s.problems@[i as int].id))
        } else {
            None
        },
        None => None,
    }
}

/// The outside work a freshly applied setting asks for: credentials
/// log in; a new init template runs at once (when a problem is
/// selected); everything else asks for nothing.
pub open spec fn setting_action_ok(post: Session, sv: SettingView, a: Action) -> bool {
    match sv {
        SettingView::Credentials { bojautologin, onlinejudge } => a matches Action::Login {
            bojautologin: b,
            onlinejudge: o,
        } && b@ == bojautologin && o@ == onlinejudge,
        SettingView::Init(_) => match spec_init_cmd(post) {
            Some(c) => a matches Action::RunInit { cmd } && cmd@ == c,
            None => a is Idle,
        },
        _ => a is Idle,
    }
}

/// The notice shown when diff-based comparison is off for a test run.
pub open spec fn spec_no_diff_notice(reasons: Seq<Seq<char>>) -> Seq<char> {
    "test: Current problem does not support diff on test output. Reason: "@ + spec_join(reasons)
}

/// Process-lifetime state of the shell: credentials, the six stored
/// defaults, the selected problem, the problem cache (never evicted)
/// and the named presets.
pub struct Session {
    pub credentials: Credentials,
    pub init: String,
    pub build: String,
    pub cmd: String,
    pub input: String,
    pub lang: String,
    pub file: String,
    pub current: Option<usize>,
    pub problems: Vec<Problem>,
    pub presets: Vec<Preset>,
}

impl Session {
    /// Validity: the selected index is in the cache, every cached
    /// problem is well formed, cached identifiers are distinct, and
    /// preset names are distinct.
    pub open spec fn wf(&self) -> bool {
        &&& match self.current {
            Some(i) => i < self.problems@.len(),
            None => true,
        }
        &&& forall|i: int| 0 <= i < self.problems@.len() ==> (#[trigger] self.problems@[i]).wf()
        &&& forall|i: int, j: int|
            0 <= i < j < self.problems@.len() ==> !id_eqv(
                self.problems@[i].id,
                self.problems@[j].id,
            )
        &&& forall|i: int, j: int|
            0 <= i < j < self.presets@.len() ==> (#[trigger] self.presets@[i]).name@ != (
            #[trigger] self.presets@[j]).name@
    }

    /// A fresh session with the built-in defaults.
    pub fn new() -> (s: Session)
        ensures
            s.wf(),
            s.credentials.bojautologin@ == Seq::<char>::empty(),
            s.credentials.onlinejudge@ == Seq::<char>::empty(),
            s.init@ == Seq::<char>::empty(),
            s.build@ == "cargo build --release"@,
            s.cmd@ == "cargo run --release"@,
            s.input@ == "input.txt"@,
            s.lang@ == "Rust 2021"@,
            s.file@ == "src/main.rs"@,
            s.current is None,
            s.problems@ == Seq::<Problem>::empty(),
            s.presets@ == Seq::<Preset>::empty(),
    {
        Session {
            credentials: Credentials { bojautologin: String::new(), onlinejudge: String::new() },
            init: String::new(),
            build: String::from_str("cargo build --release"),
            cmd: String::from_str("cargo run --release"),
            input: String::from_str("input.txt"),
            lang: String::from_str("Rust 2021"),
            file: String::from_str("src/main.rs"),
            current: None,
            problems: Vec::new(),
            presets: Vec::new(),
        }
    }

    /// The selected problem, if one is.
    pub fn current_problem(&self) -> (r: Option<&Problem>)
        requires
            self.wf(),
        ensures
            match self.current {
                Some(i) => r matches Some(p) && *p == self.problems@[i as int],
                None => r is None,
            },
    {
        match self.current {
            Some(i) => Some(&self.problems[i]),
            None => None,
        }
    }

    /// Cache lookup by identifier.
    #[verifier::loop_isolation(false)]
    pub fn find_problem(&self, id: &ProblemId) -> (r: Option<usize>)
        requires
            self.wf(),
            id.wf(),
        ensures
            match r {
                Some(i) => i == spec_find_by_code(self.problems@, id.code_spec()) && i
                    < self.problems@.len(),
                None => spec_find_by_code(self.problems@, id.code_spec())
                    == self.problems@.len(),
            },
    {
        let ghost code = id.code_spec();
        let mut i: usize = 0;
        proof {
            assert(self.problems@.skip(0) =~= self.problems@);
        }
        while i < self.problems.len()
            invariant
                self.wf(),
                id.wf(),
                i <= self.problems@.len(),
                spec_find_by_code(self.problems@, code) == i + spec_find_by_code(
                    self.problems@.skip(i as int),
                    code,
                ),
            decreases self.problems@.len() - i,
        {
            proof {
                assert(self.problems@.skip(i as int)[0] == self.problems@[i as int]);
                assert(self.problems@.skip(i as int).skip(1) =~= self.problems@.skip(i as int + 1));
                assert(self.problems@[i as int].wf());
            }
            if self.problems[i].id.same(id) {
                proof {
                    assert(self.problems@.skip(i as int).len() > 0);
                    assert(self.problems@.skip(i as int)[0].id.code_spec() == code);
                    assert(spec_find_by_code(self.problems@.skip(i as int), code) == 0);
                }
                return Some(i);
            }
            proof {
                let a = self.problems@[i as int].id;
                if a.code_spec() == code {
                    crate::data::lemma_same_code_same_variant(a, *id);
                }
            }
            i = i + 1;
        }
        proof {
            assert(self.problems@.skip(i as int) =~= Seq::<Problem>::empty());
        }
        None
    }

    /// Preset lookup by name.
    pub fn find_preset(&self, name: &str) -> (r: Option<&Preset>)
        ensures
            match r {
                Some(p) => spec_find_preset(self.presets@, name@) < self.presets@.len() && *p
                    == self.presets@[spec_find_preset(self.presets@, name@)],
                None => spec_find_preset(self.presets@, name@) == self.presets@.len(),
            },
    {
        let mut i: usize = 0;
        proof {
            assert(self.presets@.skip(0) =~= self.presets@);
        }
        while i < self.presets.len()
            invariant
                i <= self.presets@.len(),
                spec_find_preset(self.presets@, name@) == i + spec_find_preset(
                    self.presets@.skip(i as int),
                    name@,
                ),
            decreases self.presets@.len() - i,
        {
            proof {
                assert(self.presets@.skip(i as int)[0] == self.presets@[i as int]);
                assert(self.presets@.skip(i as int).skip(1) =~= self.presets@.skip(i as int + 1));
            }
            if str_eq(self.presets[i].name.as_str(), name) {
                return Some(&self.presets[i]);
            }
            i = i + 1;
        }
        proof {
            assert(self.presets@.skip(i as int) =~= Seq::<Preset>::empty());
        }
        None
    }

    /// Registers a preset: a preset of the same name is replaced,
    /// otherwise the preset is appended.
    #[verifier::loop_isolation(false)]
    pub fn add_preset(&mut self, p: Preset) -> (replaced: bool)
        requires
            old(self).wf(),
        ensures
            final(self).wf(),
            final(self).credentials == old(self).credentials,
            final(self).init == old(self).init,
            final(self).build == old(self).build,
            final(self).cmd == old(self).cmd,
            final(self).input == old(self).input,
            final(self).lang == old(self).lang,
            final(self).file == old(self).file,
            final(self).current == old(self).current,
            final(self).problems == old(self).problems,
            ({
                let idx = spec_find_preset(old(self).presets@, p.name@);
                if idx < old(self).presets@.len() {
                    replaced && final(self).presets@ == old(self).presets@.update(idx, p)
                } else {
                    !replaced && final(self).presets@ == old(self).presets@.push(p)
                }
            }),
    {
        let ghost name = p.name@;
        let mut i: usize = 0;
        proof {
            assert(self.presets@.skip(0) =~= self.presets@);
        }
        while i < self.presets.len()
            invariant
                *self == *old(self),
                i <= self.presets@.len(),
                spec_find_preset(self.presets@, name) == i + spec_find_preset(
                    self.presets@.skip(i as int),
                    name,
                ),
                name == p.name@,
            decreases self.presets@.len() - i,
        {
            proof {
                assert(self.presets@.skip(i as int)[0] == self.presets@[i as int]);
                assert(self.presets@.skip(i as int).skip(1) =~= self.presets@.skip(i as int + 1));
            }
            if str_eq(self.presets[i].name.as_str(), p.name.as_str()) {
                proof {
                    assert(self.presets@.skip(i as int)[0].name@ == name);
                    assert(spec_find_preset(self.presets@.skip(i as int), name) == 0);
                    assert(spec_find_preset(old(self).presets@, name) == i);
                }
                let ghost pname = p.name@;
                self.presets.remove(i);
                self.presets.insert(i, p);
                proof {
                    assert(self.presets@ =~= old(self).presets@.update(i as int, p));
                    assert(pname == old(self).presets@[i as int].name@);
                    assert forall|a: int, b: int|
                        0 <= a < b < self.presets@.len() implies self.presets@[a].name@
                        != self.presets@[b].name@ by {
                        assert(old(self).presets@[a].name@ != old(self).presets@[b].name@);
                    }
                }
                return true;
            }
            i = i + 1;
        }
        proof {
            assert(self.presets@.skip(i as int) =~= Seq::<Preset>::empty());
            assert(spec_find_preset(old(self).presets@, name) == old(self).presets@.len());
            lemma_find_preset_props(old(self).presets@, name);
        }
        self.presets.push(p);
        proof {
            assert forall|a: int, b: int|
                0 <= a < b < self.presets@.len() implies self.presets@[a].name@
                != self.presets@[b].name@ by {
                if b < old(self).presets@.len() {
                    assert(old(self).presets@[a].name@ != old(self).presets@[b].name@);
                } else {
                    assert(self.presets@[b] == p);
                    assert(old(self).presets@[a].name@ != name);
                }
            }
        }
        false
    }

    /// The init command to run now, if the stored init template is
    /// nonempty and a problem is selected.
    pub fn init_cmd(&self) -> (r: Option<String>)
        requires
            self.wf(),
        ensures
            opt_view(r) == spec_init_cmd(*self),
    {
        if self.init.as_str().is_empty() {
            return None;
        }
        match self.current {
            Some(i) => {
                let cmd = substitute_problem(self.init.as_str(), &self.problems[i].id);
                Some(cmd)
            },
            None => None,
        }
    }

    /// Applies one setting: exactly the corresponding field changes,
    /// and the caller is told what outside work the setting asks for.
    pub fn apply_setting(&mut self, s: &Setting) -> (a: Action)
        requires
            old(self).wf(),
        ensures
            final(self).wf(),
            setting_applied(*old(self), *final(self), s@),
            setting_action_ok(*final(self), s@, a),
    {
        match s {
            Setting::Credentials(c) => {
                self.credentials = Credentials {
                    bojautologin: c.bojautologin.clone(),
                    onlinejudge: c.onlinejudge.clone(),
                };
                Action::Login {
                    bojautologin: c.bojautologin.clone(),
                    onlinejudge: c.onlinejudge.clone(),
                }
            },
            Setting::Lang(v) => {
                self.lang = v.clone();
                Action::Idle
            },
            Setting::File(v) => {
                self.file = v.clone();
                Action::Idle
            },
            Setting::Init(v) => {
                self.init = v.clone();
                match self.init_cmd() {
                    Some(cmd) => Action::RunInit { cmd },
                    None => Action::Idle,
                }
            },
            Setting::Build(v) => {
                self.build = v.clone();
                Action::Idle
            },
            Setting::Cmd(v) => {
                self.cmd = v.clone();
                Action::Idle
            },
            Setting::Input(v) => {
                self.input = v.clone();
                Action::Idle
            },
        }
    }

    /// Stores a problem that was just fetched: it joins the cache,
    /// becomes the selected problem, and the init template (if any)
    /// is handed back to run.
    pub fn store_problem(&mut self, p: Problem) -> (a: Action)
        requires
            old(self).wf(),
            p.wf(),
            spec_find_by_code(old(self).problems@, p.id.code_spec()) == old(
                self,
            ).problems@.len(),
        ensures
            final(self).wf(),
            final(self).problems@ == old(self).problems@.push(p),
            final(self).current == Some(old(self).problems@.len() as usize),
            final(self).credentials == old(self).credentials,
            final(self).init == old(self).init,
            final(self).build == old(self).build,
            final(self).cmd == old(self).cmd,
            final(self).input == old(self).input,
            final(self).lang == old(self).lang,
            final(self).file == old(self).file,
            final(self).presets == old(self).presets,
            a matches Action::ShowProblem { init } && opt_view(init) == spec_init_cmd(
                *final(self),
            ),
    {
        proof {
            lemma_find_by_code(self.problems@, p.id.code_spec());
        }
        let idx = self.problems.len();
        self.problems.push(p);
        self.current = Some(idx);
        proof {
            let ps = self.problems@;
            assert forall|a: int, b: int|
                0 <= a < b < ps.len() implies !id_eqv(ps[a].id, ps[b].id) by {
                if b < ps.len() - 1 {
                    assert(!id_eqv(old(self).problems@[a].id, old(self).problems@[b].id));
                } else {
                    assert(old(self).problems@[a].id.code_spec() != ps[b].id.code_spec());
                }
            }
        }
        let init = self.init_cmd();
        Action::ShowProblem { init }
    }

    /// Dispatches one command: checks its preconditions against the
    /// session, applies what it stores, and says what outside work it
    /// asks for.  On an error the session is left exactly as it was.
    pub fn execute(&mut self, c: &Command) -> (r: Result<Action, CommandExecuteError>)
        requires
            old(self).wf(),
        ensures
            final(self).wf(),
            execute_spec(*old(self), *final(self), c@, r),
    {
        match c {
            Command::SetValue(s) => {
                let a = self.apply_setting(s);
                Ok(a)
            },
            Command::Preset { name } => {
                match self.find_preset(name.as_str()) {
                    Some(p) => {
                        let settings = p.settings();
                        Ok(Action::ApplyPreset { settings })
                    },
                    None => Err(CommandExecuteError::UnknownPreset),
                }
            },
            Command::Prob { prob } => {
                match ProblemId::parse(prob.as_str()) {
                    Err(_e) => Err(CommandExecuteError::InvalidProblemId { input: prob.clone() }),
                    Ok(id) => {
                        match self.find_problem(&id) {
                            Some(i) => {
                                self.current = Some(i);
                                let init = self.init_cmd();
                                Ok(Action::ShowProblem { init })
                            },
                            None => Ok(Action::FetchProblem { id }),
                        }
                    },
                }
            },
            Command::Build { build } => {
                match self.current {
                    None => Err(
                        CommandExecuteError::ProblemNotSpecified { verb: String::from_str("build") },
                    ),
                    Some(i) => {
                        let template = match build {
                            Some(b) => b,
                            None => &self.build,
                        };
                        let cmd = substitute_problem(template.as_str(), &self.problems[i].id);
                        Ok(Action::RunSilent { cmd })
                    },
                }
            },
            Command::Run { cmd, input } => {
                match self.current {
                    None => Err(
                        CommandExecuteError::ProblemNotSpecified { verb: String::from_str("run") },
                    ),
                    Some(i) => {
                        let reasons = gate_reasons(GateQuery::Run, &self.problems[i].kind);
                        if reasons.len() > 0 {
                            proof {
                                lemma_strings_view_len(reasons@);
                            }
                            return Err(CommandExecuteError::RunNotSupported { reasons });
                        }
                        proof {
                            lemma_strings_view_len(reasons@);
                        }
                        let template = match cmd {
                            Some(b) => b,
                            None => &self.cmd,
                        };
                        let run_cmd = substitute_problem(template.as_str(), &self.problems[i].id);
                        if any_interactive(&self.problems[i].kind) {
                            Ok(Action::RunInteractive { cmd: run_cmd })
                        } else {
                            let input_path = match input {
                                Some(p) => p.clone(),
                                None => self.input.clone(),
                            };
                            let deadline_ms = run_deadline_millis(self.problems[i].time_millis);
                            Ok(Action::RunTimed { cmd: run_cmd, input_path, deadline_ms })
                        }
                    },
                }
            },
            Command::Test { cmd } => {
                match self.current {
                    None => Err(
                        CommandExecuteError::ProblemNotSpecified { verb: String::from_str("test") },
                    ),
                    Some(i) => {
                        let reasons = gate_reasons(GateQuery::Test, &self.problems[i].kind);
                        if reasons.len() > 0 {
                            proof {
                                lemma_strings_view_len(reasons@);
                            }
                            return Err(CommandExecuteError::TestNotSupported { reasons });
                        }
                        proof {
                            lemma_strings_view_len(reasons@);
                        }
                        let diff_reasons = gate_reasons(GateQuery::Diff, &self.problems[i].kind);
                        proof {
                            lemma_strings_view_len(diff_reasons@);
                        }
                        let diff = diff_reasons.len() == 0;
                        let notice: Option<String> = if diff {
                            None
                        } else {
                            let mut n = String::from_str(
                                "test: Current problem does not support diff on test output. Reason: ",
                            );
                            let joined = join_reasons(&diff_reasons);
                            n.append(joined.as_str());
                            Some(n)
                        };
                        let template = match cmd {
                            Some(b) => b,
                            None => &self.cmd,
                        };
                        let test_cmd = substitute_problem(template.as_str(), &self.problems[i].id);
                        let deadline_ms = run_deadline_millis(self.problems[i].time_millis);
                        Ok(Action::RunTests { cmd: test_cmd, deadline_ms, diff, notice })
                    },
                }
            },
            Command::Submit { lang, file } => {
                match self.current {
                    None => Err(
                        CommandExecuteError::ProblemNotSpecified {
                            verb: String::from_str("submit"),
                        },
                    ),
                    Some(i) => {
                        let lang_val = match lang {
                            Some(l) => l.clone(),
                            None => {
                                if self.lang.as_str().is_empty() {
                                    return Err(CommandExecuteError::LanguageNotSpecified);
                                }
                                self.lang.clone()
                            },
                        };
                        let file_template = match file {
                            Some(f) => f.clone(),
                            None => {
                                if self.file.as_str().is_empty() {
                                    return Err(CommandExecuteError::FileNotSpecified);
                                }
                                self.file.clone()
                            },
                        };
                        let file_val = substitute_problem(
                            file_template.as_str(),
                            &self.problems[i].id,
                        );
                        Ok(Action::SubmitSolution { lang: lang_val, file: file_val })
                    },
                }
            },
            Command::Help => Ok(Action::ShowHelp),
            Command::Exit => Ok(Action::Terminate),
            Command::Shell(s) => Ok(Action::RunInteractive { cmd: s.clone() }),
        }
    }
}

proof fn lemma_find_preset_props(ps: Seq<Preset>, name: Seq<char>)
    ensures
        0 <= spec_find_preset(ps, name) <= ps.len(),
        spec_find_preset(ps, name) < ps.len() ==> ps[spec_find_preset(ps, name)].name@ == name,
        forall|j: int|
            0 <= j < spec_find_preset(ps, name) ==> (#[trigger] ps[j]).name@ != name,
    decreases ps.len(),
{
    if ps.len() > 0 && ps[0].name@ != name {
        lemma_find_preset_props(ps.skip(1), name);
        assert(forall|j: int| 1 <= j < spec_find_preset(ps, name) ==> ps[j] == ps.skip(1)[j - 1]);
    }
}

proof fn lemma_strings_view_len(v: Seq<String>)
    ensures
        strings_view(v).len() == v.len(),
{
}

/// What dispatching one command does: the state transition and the
/// result, for every command and every starting state.
pub open spec fn execute_spec(
    pre: Session,
    post: Session,
    c: CommandView,
    r: Result<Action, CommandExecuteError>,
) -> bool {
    match c {
        CommandView::SetValue(sv) => r matches Ok(a) && setting_applied(pre, post, sv)
            && setting_action_ok(post, sv, a),
        CommandView::Preset { name } => post == pre && {
            let idx = spec_find_preset(pre.presets@, name);
            if idx < pre.presets@.len() {
                r matches Ok(Action::ApplyPreset { settings }) && settings_views(settings@)
                    == preset_settings(pre.presets@[idx])
            } else {
                r matches Err(CommandExecuteError::UnknownPreset)
            }
        },
        CommandView::Prob { prob } => if !spec_id_ok(prob) {
            post == pre && (r matches Err(CommandExecuteError::InvalidProblemId { input })
                && input@ == prob)
        } else {
            let idx = spec_find_by_code(pre.problems@, prob);
            if idx < pre.problems@.len() {
                &&& post.current == Some(idx as usize)
                &&& post.problems == pre.problems
                &&& post.presets == pre.presets
                &&& post.credentials == pre.credentials
                &&& post.init == pre.init
                &&& post.build == pre.build
                &&& post.cmd == pre.cmd
                &&& post.input == pre.input
                &&& post.lang == pre.lang
                &&& post.file == pre.file
                &&& r matches Ok(Action::ShowProblem { init }) && opt_view(init)
                    == spec_init_cmd(post)
            } else {
                &&& post == pre
                &&& r matches Ok(Action::FetchProblem { id }) && id.wf() && id.code_spec() == prob
                    && (id is ContestProblem <==> slash_count(prob) == 1)
            }
        },
        CommandView::Build { build } => post == pre && match pre.current {
            None => r matches Err(CommandExecuteError::ProblemNotSpecified { verb }) && verb@
                == "build"@,
            Some(i) => r matches Ok(Action::RunSilent { cmd }) && cmd@ == spec_substitute(
                spec_effective(build, pre.build@),
                pre.problems@[i as int].id,
            ),
        },
        CommandView::Run { cmd, input } => post == pre && match pre.current {
            None => r matches Err(CommandExecuteError::ProblemNotSpecified { verb }) && verb@
                == "run"@,
            Some(i) => {
                let p = pre.problems@[i as int];
                let reasons = spec_gate_reasons(GateQuery::Run, p.kind@);
                if reasons.len() > 0 {
                    r matches Err(CommandExecuteError::RunNotSupported { reasons: rs })
                        && strings_view(rs@) == reasons
                } else {
                    let cmdseq = spec_substitute(spec_effective(cmd, pre.cmd@), p.id);
                    if spec_any_interactive(p.kind@) {
                        r matches Ok(Action::RunInteractive { cmd: rc }) && rc@ == cmdseq
                    } else {
                        r matches Ok(Action::RunTimed { cmd: rc, input_path, deadline_ms }) && rc@
                            == cmdseq && input_path@ == spec_effective(input, pre.input@)
                            && deadline_ms == spec_deadline(p.time_millis)
                    }
                }
            },
        },
        CommandView::Test { cmd } => post == pre && match pre.current {
            None => r matches Err(CommandExecuteError::ProblemNotSpecified { verb }) && verb@
                == "test"@,
            Some(i) => {
                let p = pre.problems@[i as int];
                let reasons = spec_gate_reasons(GateQuery::Test, p.kind@);
                if reasons.len() > 0 {
                    r matches Err(CommandExecuteError::TestNotSupported { reasons: rs })
                        && strings_view(rs@) == reasons
                } else {
                    let diff_reasons = spec_gate_reasons(GateQuery::Diff, p.kind@);
                    let cmdseq = spec_substitute(spec_effective(cmd, pre.cmd@), p.id);
                    r matches Ok(Action::RunTests { cmd: rc, deadline_ms, diff, notice }) && rc@
                        == cmdseq && deadline_ms == spec_deadline(p.time_millis) && diff == (
                    diff_reasons.len() == 0) && (if diff {
                        notice is None
                    } else {
                        notice matches Some(n) && n@ == spec_no_diff_notice(diff_reasons)
                    })
                }
            },
        },
        CommandView::Submit { lang, file } => post == pre && match pre.current {
            None => r matches Err(CommandExecuteError::ProblemNotSpecified { verb }) && verb@
                == "submit"@,
            Some(i) => {
                let p = pre.problems@[i as int];
                if lang is None && pre.lang@.len() == 0 {
                    r matches Err(CommandExecuteError::LanguageNotSpecified)
                } else if file is None && pre.file@.len() == 0 {
                    r matches Err(CommandExecuteError::FileNotSpecified)
                } else {
                    r matches Ok(Action::SubmitSolution { lang: lv, file: fv }) && lv@
                        == spec_effective(lang, pre.lang@) && fv@ == spec_substitute(
                        spec_effective(file, pre.file@),
                        p.id,
                    )
                }
            },
        },
        CommandView::Help => post == pre && r matches Ok(Action::ShowHelp),
        CommandView::Exit => post == pre && r matches Ok(Action::Terminate),
        CommandView::Shell(sh) => post == pre && (r matches Ok(Action::RunInteractive { cmd })
            && cmd@ == sh),
    }
}

} // verus!
