//! The children of the daemon: which ones may be started, and which ones are running.
//!
//! Starting, killing and waiting are up to the caller, who reports what came of it. The
//! children keep running when the app dies, and they are reaped on teardown.
use crate::packages::app_package;
use crate::rootd::{ChildHandle, ChildKind, SpawnChildCommand};
use crate::text::{
    after_last, begins_with, chars_of, decode_lossy, find, first_part_at, last_field,
    last_part_follows_the_last_mark, push_args, push_signed, push_strings, same_text,
    signed_decimal, starts_with, text_of, texts, utf8_lossy,
};
use std::collections::HashMap;
use vstd::prelude::*;
use vstd::std_specs::iter::IteratorSpec;

verus! {

broadcast use {vstd::string::group_string_axioms, vstd::std_specs::hash::group_hash_axioms};

/// The class on which the children that are no executables are started. It decides which code
/// runs as root, so a client has no say in it.
pub open spec fn entry_class() -> Seq<char> {
    "wings.v.root.RootCommandMain"@
}

/// What the file system says of a path.
#[derive(Debug, PartialEq, Eq)]
pub struct PathFacts {
    pub is_file: bool,
    pub exists: bool,
    /// The bytes of the path without symbolic links and dots, if it could be resolved.
    pub resolved: Option<Vec<u8>>,
}

impl PathFacts {
    /// The text of the resolved path.
    pub open spec fn resolved_text(self) -> Option<Seq<char>> {
        match self.resolved {
            Some(bytes) => Some(utf8_lossy(bytes@)),
            None => None,
        }
    }
}

/// Whether a path is absolute.
pub open spec fn is_absolute(path: Seq<char>) -> bool {
    begins_with(path, "/"@)
}

/// Whether a resolved path is in the directory that only the package manager writes.
pub open spec fn app_path(resolved: Seq<char>) -> bool {
    begins_with(resolved, "/data/app/"@)
}

/// Whether a directory's name is that of the app's own directory: the name of its package, which
/// the package manager may have lengthened behind a hyphen.
pub open spec fn own_dir(name: Seq<char>) -> bool {
    name == app_package() || begins_with(name, app_package() + "-"@)
}

/// Whether a resolved path is that of a native library of the app: the first library directory
/// on the path lies in the app's own directory.
pub open spec fn native_library_path(resolved: Seq<char>) -> bool {
    &&& app_path(resolved)
    &&& exists|i: int|
        #[trigger] first_part_at(resolved, "/lib/"@, i) && own_dir(
            after_last(resolved.take(i), '/'),
        )
}

/// Whether a path is that of an executable that may be started.
pub open spec fn allowed_binary(path: Seq<char>, facts: PathFacts) -> bool {
    &&& is_absolute(path)
    &&& facts.is_file
    &&& facts.resolved_text() matches Some(resolved)
    &&& native_library_path(resolved)
}

/// Whether a path is that of something the package manager installed.
pub open spec fn app_owned(path: Seq<char>, facts: PathFacts) -> bool {
    &&& is_absolute(path)
    &&& facts.exists
    &&& facts.resolved_text() matches Some(resolved)
    &&& app_path(resolved)
}

/// Whether a resolved path is in the directory that only the package manager writes.
pub fn is_app_path(resolved: &str) -> (inside: bool)
    ensures
        inside == app_path(resolved@),
{
    starts_with(resolved, "/data/app/")
}

/// Whether a directory's name is that of the app's own directory.
fn is_own_dir(name: &str) -> (own: bool)
    ensures
        own == own_dir(name@),
{
    proof {
        reveal_strlit("wings.v");
        reveal_strlit("-");
        reveal_strlit("wings.v-");
        assert("wings.v-"@ =~= "wings.v"@ + "-"@);
    }
    same_text(name, "wings.v") || starts_with(name, "wings.v-")
}

/// Whether a resolved path is that of a native library of the app.
pub fn is_native_library_path(resolved: &str) -> (inside: bool)
    ensures
        inside == native_library_path(resolved@),
{
    if !is_app_path(resolved) {
        return false;
    }
    let chars = chars_of(resolved);
    match find(&chars, "/lib/") {
        Some(i) => {
            let dir = last_field(&chars, i, '/');
            let own: bool = is_own_dir(dir.as_str());
            proof {
                if native_library_path(resolved@) {
                    let k = choose|k: int|
                        #[trigger] first_part_at(resolved@, "/lib/"@, k) && own_dir(
                            after_last(resolved@.take(k), '/'),
                        );
                    assert(first_part_at(resolved@, "/lib/"@, i as int));
                    if k < i {
                        assert(!begins_with(resolved@.skip(k), "/lib/"@));
                    } else if i < k {
                        assert(!begins_with(resolved@.skip(i as int), "/lib/"@));
                    }
                }
            }
            own
        },
        None => false,
    }
}

/// Whether a path is that of an executable that may be started: a native library of the app.
/// The path is resolved first, so symbolic links and dots do not help.
pub fn is_allowed_binary(path: &str, facts: &PathFacts) -> (allowed: bool)
    ensures
        allowed == allowed_binary(path@, *facts),
{
    if !starts_with(path, "/") || !facts.is_file {
        return false;
    }
    match &facts.resolved {
        Some(bytes) => is_native_library_path(decode_lossy(bytes.as_slice()).as_str()),
        None => false,
    }
}

/// Whether a path is that of something the package manager installed.
pub fn is_app_owned(path: &str, facts: &PathFacts) -> (owned: bool)
    ensures
        owned == app_owned(path@, *facts),
{
    if !starts_with(path, "/") || !facts.exists {
        return false;
    }
    match &facts.resolved {
        Some(bytes) => is_app_path(decode_lossy(bytes.as_slice()).as_str()),
        None => false,
    }
}

/// The program that starts a class. The one for 64 bits exists on some devices only.
pub open spec fn app_process_path(has_64_bit: bool) -> Seq<char> {
    if has_64_bit {
        "/system/bin/app_process64"@
    } else {
        "/system/bin/app_process"@
    }
}

/// The program that starts a class.
pub fn app_process(has_64_bit: bool) -> (path: &'static str)
    ensures
        path@ == app_process_path(has_64_bit),
{
    if has_64_bit {
        "/system/bin/app_process64"
    } else {
        "/system/bin/app_process"
    }
}

/// What the file system says of a request.
#[derive(Debug, PartialEq, Eq)]
pub struct SpawnFacts {
    pub binary: PathFacts,
    pub classpath: PathFacts,
    pub lib_dir: PathFacts,
    /// Whether the program that starts a class on 64 bits exists.
    pub has_app_process64: bool,
}

/// A program to start in the background.
#[derive(Debug, PartialEq, Eq)]
pub struct Launch {
    pub program: String,
    pub args: Vec<String>,
    /// The variable `CLASSPATH`, where the program needs it.
    pub classpath: Option<String>,
    /// The directory to start in, where it is not the daemon's own.
    pub working_dir: Option<String>,
}

/// The texts of a program to start.
pub struct LaunchView {
    pub program: Seq<char>,
    pub args: Seq<Seq<char>>,
    pub classpath: Option<Seq<char>>,
    pub working_dir: Option<Seq<char>>,
}

impl View for Launch {
    type V = LaunchView;

    open spec fn view(&self) -> LaunchView {
        LaunchView {
            program: self.program@,
            args: texts(self.args@),
            classpath: text_of(self.classpath),
            working_dir: text_of(self.working_dir),
        }
    }
}

/// The directory that a request names, if it names one.
pub open spec fn requested_dir(request: SpawnChildCommand) -> Option<Seq<char>> {
    if request.working_dir@.len() > 0 {
        Some(request.working_dir@)
    } else {
        None
    }
}

/// The program for a request of a kind that is a class rather than an executable. The request
/// names only paths that the package manager owns and the arguments for the proxy itself.
pub open spec fn class_launch(request: SpawnChildCommand, facts: SpawnFacts) -> Result<
    LaunchView,
    Seq<char>,
> {
    let byedpi = request.known_kind == ChildKind::Byedpi;
    if !app_owned(request.classpath@, facts.classpath) {
        Err("refusing classpath "@ + request.classpath@ + ": not an installed apk"@)
    } else if !app_owned(request.lib_dir@, facts.lib_dir) {
        Err("refusing lib dir "@ + request.lib_dir@ + ": not an app library dir"@)
    } else {
        Ok(
            LaunchView {
                program: app_process_path(facts.has_app_process64),
                args: seq![
                    "/system/bin"@,
                    entry_class(),
                    if byedpi {
                        "byedpi"@
                    } else {
                        "xray-tproxy"@
                    },
                    "--lib-dir"@,
                    request.lib_dir@,
                ] + (if byedpi {
                    seq!["--"@]
                } else {
                    seq![]
                }) + texts(request.args@),
                classpath: Some(request.classpath@),
                working_dir: requested_dir(request),
            },
        )
    }
}

/// The program to start for a request, or why it is refused.
pub open spec fn launch_of(request: SpawnChildCommand, facts: SpawnFacts) -> Result<
    LaunchView,
    Seq<char>,
> {
    match request.known_kind {
        ChildKind::Byedpi | ChildKind::Xray => class_launch(request, facts),
        ChildKind::Vkturn => if allowed_binary(request.binary_path@, facts.binary) {
            Ok(
                LaunchView {
                    program: request.binary_path@,
                    args: texts(request.args@),
                    classpath: None,
                    working_dir: requested_dir(request),
                },
            )
        } else {
            Err("refusing to exec "@ + request.binary_path@ + ": not an app native library"@)
        },
        ChildKind::Unset => Err("child kind not set"@),
    }
}

/// The texts of a program to start or of the error in its place.
pub open spec fn launch_text(launch: Result<Launch, String>) -> Result<LaunchView, Seq<char>> {
    match launch {
        Ok(command) => Ok(command@),
        Err(message) => Err(message@),
    }
}

/// A message with a path in the middle.
fn about_path(before: &str, path: &str, behind: &str) -> (message: String)
    ensures
        message@ == before@ + path@ + behind@,
{
    let mut message = before.to_string();
    message.push_str(path);
    message.push_str(behind);
    message
}

/// The directory that a request names, if it names one.
fn working_dir_of(request: &SpawnChildCommand) -> (dir: Option<String>)
    ensures
        text_of(dir) == requested_dir(*request),
{
    if request.working_dir.as_str().is_empty() {
        None
    } else {
        Some(request.working_dir.clone())
    }
}

/// The program for a request of a kind that is a class rather than an executable.
fn app_process_command(request: &SpawnChildCommand, facts: &SpawnFacts) -> (launch: Result<
    Launch,
    String,
>)
    ensures
        launch_text(launch) == class_launch(*request, *facts),
{
    if !is_app_owned(request.classpath.as_str(), &facts.classpath) {
        return Err(
            about_path("refusing classpath ", request.classpath.as_str(), ": not an installed apk"),
        );
    }
    if !is_app_owned(request.lib_dir.as_str(), &facts.lib_dir) {
        return Err(
            about_path("refusing lib dir ", request.lib_dir.as_str(), ": not an app library dir"),
        );
    }
    let byedpi: bool = request.known_kind == ChildKind::Byedpi;
    let subcommand = if byedpi {
        "byedpi"
    } else {
        "xray-tproxy"
    };
    let mut args: Vec<String> = Vec::new();
    push_args(
        &mut args,
        &[
            "/system/bin",
            "wings.v.root.RootCommandMain",
            subcommand,
            "--lib-dir",
            request.lib_dir.as_str(),
        ],
    );
    if byedpi {
        // Everything behind it is the proxy's own command line.
        push_args(&mut args, &["--"]);
    }
    push_strings(&mut args, &request.args);
    let launch = Launch {
        program: app_process(facts.has_app_process64).to_string(),
        args,
        classpath: Some(request.classpath.clone()),
        working_dir: working_dir_of(request),
    };
    assert(launch@.args =~= class_launch(*request, *facts)->Ok_0.args);
    Ok(launch)
}

/// The program to start for a request, or why it is refused.
pub fn launch_for(request: &SpawnChildCommand, facts: &SpawnFacts) -> (launch: Result<
    Launch,
    String,
>)
    ensures
        launch_text(launch) == launch_of(*request, *facts),
{
    match request.known_kind {
        ChildKind::Byedpi | ChildKind::Xray => app_process_command(request, facts),
        ChildKind::Vkturn => {
            if !is_allowed_binary(request.binary_path.as_str(), &facts.binary) {
                return Err(
                    about_path(
                        "refusing to exec ",
                        request.binary_path.as_str(),
                        ": not an app native library",
                    ),
                );
            }
            let mut args: Vec<String> = Vec::new();
            push_strings(&mut args, &request.args);
            let launch = Launch {
                program: request.binary_path.clone(),
                args,
                classpath: None,
                working_dir: working_dir_of(request),
            };
            assert(launch@.args =~= texts(request.args@));
            Ok(launch)
        },
        ChildKind::Unset => Err("child kind not set".to_string()),
    }
}

/// A child that was started.
#[derive(Clone, Copy, Debug, PartialEq, Eq, Structural)]
pub struct Entry {
    pub kind: i32,
    pub pid: i32,
}

/// The children that were started and not yet reaped, by number.
pub struct Children {
    next_id: u64,
    running: HashMap<u64, Entry>,
}

/// The children over mathematical values.
pub struct ChildrenView {
    /// How many children were ever started, which is the number of the last one.
    pub started: nat,
    pub running: Map<u64, Entry>,
}

impl View for Children {
    type V = ChildrenView;

    closed spec fn view(&self) -> ChildrenView {
        ChildrenView { started: self.next_id as nat, running: self.running@ }
    }
}

/// What came of starting a program.
#[derive(Debug, PartialEq, Eq)]
pub enum ExecOutcome {
    /// It was not tried yet.
    NotYet,
    /// The program runs as this process.
    Started(u32),
    /// The program could not be started. This is the error.
    Failed(String),
}

/// How starting a child goes on.
#[derive(Debug, PartialEq, Eq)]
pub enum SpawnStep {
    /// Start a program, and report what came of it.
    Exec(Launch),
    /// The child runs.
    Running(ChildHandle),
    /// The child is refused or could not be started. This is the error.
    Refused(String),
}

/// The texts of a step.
pub enum SpawnStepView {
    Exec(LaunchView),
    Running(ChildHandle),
    Refused(Seq<char>),
}

impl View for SpawnStep {
    type V = SpawnStepView;

    open spec fn view(&self) -> SpawnStepView {
        match *self {
            SpawnStep::Exec(launch) => SpawnStepView::Exec(launch@),
            SpawnStep::Running(handle) => SpawnStepView::Running(handle),
            SpawnStep::Refused(message) => SpawnStepView::Refused(message@),
        }
    }
}

/// The number of the child that is started next.
pub open spec fn next_child(children: ChildrenView) -> u64 {
    (children.started + 1) as u64
}

/// How starting a child goes on. A child runs only after its program was allowed and started.
pub open spec fn spawn_step(
    children: ChildrenView,
    request: SpawnChildCommand,
    facts: SpawnFacts,
    outcome: ExecOutcome,
) -> SpawnStepView {
    match launch_of(request, facts) {
        Err(message) => SpawnStepView::Refused(message),
        Ok(launch) => match outcome {
            ExecOutcome::NotYet => SpawnStepView::Exec(launch),
            ExecOutcome::Started(pid) => SpawnStepView::Running(
                ChildHandle {
                    kind: request.kind,
                    child_id: next_child(children),
                    pid: pid as i32,
                    running: true,
                },
            ),
            ExecOutcome::Failed(error) => SpawnStepView::Refused(
                "spawn kind "@ + signed_decimal(request.kind as int) + ": "@ + error@,
            ),
        },
    }
}

/// The children with the one of a handle among them.
pub open spec fn with_child(children: ChildrenView, handle: ChildHandle) -> ChildrenView {
    ChildrenView {
        started: children.started + 1,
        running: children.running.insert(
            handle.child_id,
            Entry { kind: handle.kind, pid: handle.pid },
        ),
    }
}

/// The children after a step of starting one: there is one more exactly if it runs.
pub open spec fn after_spawn(children: ChildrenView, step: SpawnStepView) -> ChildrenView {
    match step {
        SpawnStepView::Running(handle) => with_child(children, handle),
        _ => children,
    }
}

/// The children without one.
pub open spec fn without_child(children: ChildrenView, child_id: u64) -> ChildrenView {
    ChildrenView { started: children.started, running: children.running.remove(child_id) }
}

/// The handle of a child.
pub open spec fn handle_of(children: ChildrenView, child_id: u64, alive: Seq<u64>) -> ChildHandle {
    ChildHandle {
        kind: children.running[child_id].kind,
        child_id,
        pid: children.running[child_id].pid,
        running: alive.contains(child_id),
    }
}

/// Whether numbers are those of the children, each once, in some order.
pub open spec fn are_ids(ids: Seq<u64>, children: ChildrenView) -> bool {
    &&& ids.no_duplicates()
    &&& forall|id: u64| #[trigger] ids.contains(id) <==> children.running.contains_key(id)
}

/// The numbers of handles.
pub open spec fn handle_ids(handles: Seq<ChildHandle>) -> Seq<u64> {
    Seq::new(handles.len(), |i: int| handles[i].child_id)
}

/// Whether handles are those of the children, each once, in some order.
pub open spec fn are_handles(
    handles: Seq<ChildHandle>,
    children: ChildrenView,
    alive: Seq<u64>,
) -> bool {
    &&& are_ids(handle_ids(handles), children)
    &&& forall|i: int|
        0 <= i < handles.len() ==> #[trigger] handles[i] == handle_of(
            children,
            handles[i].child_id,
            alive,
        )
}

/// The children that are alive.
pub open spec fn reaped(children: ChildrenView, alive: Seq<u64>) -> ChildrenView {
    ChildrenView {
        started: children.started,
        running: children.running.restrict(alive.to_set()),
    }
}

/// Whether a number is in a list.
fn is_listed(list: &[u64], id: u64) -> (listed: bool)
    ensures
        listed == list@.contains(id),
{
    let mut i: usize = 0;
    while i < list.len()
        invariant
            i <= list@.len(),
            forall|j: int| 0 <= j < i ==> list@[j] != id,
        decreases list@.len() - i,
    {
        if list[i] == id {
            return true;
        }
        i = i + 1;
    }
    false
}

impl Children {
    /// No child has a number that was not yet given out.
    pub open spec fn wf(&self) -> bool {
        &&& self@.started <= u64::MAX
        &&& forall|id: u64| #[trigger]
            self@.running.contains_key(id) ==> 1 <= id <= self@.started
    }

    /// No children.
    pub fn new() -> (children: Children)
        ensures
            children.wf(),
            children@ == (ChildrenView { started: 0, running: Map::empty() }),
    {
        Children { next_id: 0, running: HashMap::new() }
    }

    /// Whether there is a number left for a child.
    pub fn has_number_left(&self) -> (left: bool)
        requires
            self.wf(),
        ensures
            left == (self@.started < u64::MAX),
    {
        self.next_id < u64::MAX
    }

    /// Starts a child: says which program to start, and records the child when it runs.
    pub fn spawn(
        &mut self,
        request: &SpawnChildCommand,
        facts: &SpawnFacts,
        outcome: &ExecOutcome,
    ) -> (step: SpawnStep)
        requires
            old(self).wf(),
            outcome is Started ==> old(self)@.started < u64::MAX,
        ensures
            final(self).wf(),
            step@ == spawn_step(old(self)@, *request, *facts, *outcome),
            final(self)@ == after_spawn(old(self)@, step@),
    {
        let launch = match launch_for(request, facts) {
            Ok(launch) => launch,
            Err(message) => return SpawnStep::Refused(message),
        };
        match outcome {
            ExecOutcome::NotYet => SpawnStep::Exec(launch),
            ExecOutcome::Started(process) => {
                let pid: i32 = #[verifier::truncate] (*process as i32);
                self.next_id = self.next_id + 1;
                let child_id: u64 = self.next_id;
                self.running.insert(child_id, Entry { kind: request.kind, pid });
                assert forall|id: u64| #[trigger] self@.running.contains_key(id) implies 1 <= id
                    <= self@.started by {
                    assert(id == child_id || old(self)@.running.contains_key(id));
                }
                SpawnStep::Running(
                    ChildHandle { kind: request.kind, child_id, pid, running: true },
                )
            },
            ExecOutcome::Failed(error) => {
                let mut message = "spawn kind ".to_string();
                push_signed(&mut message, request.kind);
                message.push_str(": ");
                message.push_str(error.as_str());
                SpawnStep::Refused(message)
            },
        }
    }

    /// Forgets a child, and says whether there was one to kill and wait for. One that is gone
    /// already is the outcome that the caller wanted, and no error.
    pub fn kill(&mut self, child_id: u64) -> (kill: bool)
        requires
            old(self).wf(),
        ensures
            final(self).wf(),
            kill == old(self)@.running.contains_key(child_id),
            final(self)@ == without_child(old(self)@, child_id),
    {
        let kill: bool = self.running.remove(&child_id).is_some();
        assert forall|id: u64| #[trigger] self@.running.contains_key(id) implies 1 <= id
            <= self@.started by {
            assert(old(self)@.running.contains_key(id));
        }
        kill
    }

    /// The numbers of the children.
    pub fn ids(&self) -> (ids: Vec<u64>)
        ensures
            are_ids(ids@, self@),
    {
        let mut ids: Vec<u64> = Vec::new();
        for key in it: self.running.keys()
            invariant
                it.seq().no_duplicates(),
                it.seq().unref().to_set() == self.running@.dom(),
                ids@ == it.seq().unref().take(it.index()),
        {
            ids.push(*key);
            assert(ids@ =~= it.seq().unref().take(it.index() + 1));
        }
        proof {
            let keys = vstd::std_specs::hash::spec_keys_iter(&self.running).remaining().unref();
            assert(keys.take(keys.len() as int) =~= keys);
            assert(ids@ == keys);
            assert(ids@.to_set() == self@.running.dom());
        }
        ids
    }

    /// Forgets all children, and says which ones to kill and wait for.
    pub fn kill_all(&mut self) -> (ids: Vec<u64>)
        requires
            old(self).wf(),
        ensures
            final(self).wf(),
            are_ids(ids@, old(self)@),
            final(self)@ == (ChildrenView { started: old(self)@.started, running: Map::empty() }),
    {
        let ids = self.ids();
        self.running.clear();
        ids
    }

    /// The handles of the children, of which those listed are alive. The others exited on their
    /// own and are forgotten, so that nobody is told that something runs when it does not.
    pub fn snapshot(&mut self, alive: &[u64]) -> (handles: Vec<ChildHandle>)
        requires
            old(self).wf(),
        ensures
            final(self).wf(),
            are_handles(handles@, old(self)@, alive@),
            final(self)@ == reaped(old(self)@, alive@),
    {
        let ids = self.ids();
        let ghost before = self@;
        let mut handles: Vec<ChildHandle> = Vec::new();
        let mut i: usize = 0;
        while i < ids.len()
            invariant
                i <= ids@.len(),
                are_ids(ids@, before),
                self@.started == before.started,
                forall|id: u64| #[trigger]
                    self@.running.contains_key(id) <==> before.running.contains_key(id) && (
                    alive@.contains(id) || !ids@.take(i as int).contains(id)),
                forall|id: u64| #[trigger]
                    self@.running.contains_key(id) ==> self@.running[id] == before.running[id],
                handles@.len() == i,
                forall|j: int|
                    0 <= j < i ==> #[trigger] handles@[j] == handle_of(before, ids@[j], alive@),
            decreases ids@.len() - i,
        {
            let id: u64 = ids[i];
            proof {
                assert(ids@.contains(id));
                assert(!ids@.take(i as int).contains(id));
                assert(self@.running.contains_key(id));
                assert(ids@.take(i + 1) =~= ids@.take(i as int).push(id));
                assert forall|other: u64| #[trigger]
                    ids@.take(i + 1).contains(other) <==> ids@.take(i as int).contains(other)
                        || other == id by {
                    if ids@.take(i as int).contains(other) {
                        let k = choose|k: int|
                            0 <= k < i && ids@.take(i as int)[k] == other;
                        assert(ids@.take(i + 1)[k] == other);
                    }
                    assert(ids@.take(i + 1)[i as int] == id);
                }
            }
            let running: bool = is_listed(alive, id);
            match self.running.get(&id) {
                Some(entry) => {
                    handles.push(
                        ChildHandle { kind: entry.kind, child_id: id, pid: entry.pid, running },
                    );
                },
                None => {},
            }
            if !running {
                self.running.remove(&id);
            }
            i = i + 1;
        }
        assert(ids@.take(i as int) =~= ids@);
        assert(handle_ids(handles@) =~= ids@);
        assert(self@.running =~= before.running.restrict(alive@.to_set()));
        handles
    }
}

/// Nothing but what the package manager installed is ever started: either the system's own
/// starter on the one fixed class, with a class path and a library directory of an installed
/// package, or a native library of the app, in the app's own directory.
pub proof fn started_programs_are_confined(request: SpawnChildCommand, facts: SpawnFacts)
    requires
        launch_of(request, facts) is Ok,
    ensures
        ({
            let launch = launch_of(request, facts)->Ok_0;
            ||| {
                &&& launch.program == app_process_path(facts.has_app_process64)
                &&& launch.args.len() >= 5
                &&& launch.args[0] == "/system/bin"@
                &&& launch.args[1] == entry_class()
                &&& launch.args[2] == "byedpi"@ || launch.args[2] == "xray-tproxy"@
                &&& launch.args[3] == "--lib-dir"@
                &&& launch.args[4] == request.lib_dir@
                &&& app_owned(request.lib_dir@, facts.lib_dir)
                &&& launch.classpath == Some(request.classpath@)
                &&& app_owned(request.classpath@, facts.classpath)
            }
            ||| {
                &&& launch.program == request.binary_path@
                &&& allowed_binary(request.binary_path@, facts.binary)
                &&& facts.binary.resolved_text() matches Some(resolved)
                &&& exists|i: int|
                    #[trigger] first_part_at(resolved, "/lib/"@, i) && own_dir(
                        after_last(resolved.take(i), '/'),
                    )
                &&& launch.classpath is None
            }
        }),
{
}

/// What lies in the library directory of another package may not be started.
pub proof fn other_packages_are_refused(
    path: Seq<char>,
    facts: PathFacts,
    resolved: Seq<char>,
    i: int,
)
    requires
        facts.resolved_text() == Some(resolved),
        first_part_at(resolved, "/lib/"@, i),
        !own_dir(after_last(resolved.take(i), '/')),
    ensures
        !allowed_binary(path, facts),
{
    assert forall|k: int| #[trigger] first_part_at(resolved, "/lib/"@, k) implies k == i by {
        if k < i {
            assert(!begins_with(resolved.skip(k), "/lib/"@));
        } else if i < k {
            assert(!begins_with(resolved.skip(i), "/lib/"@));
        }
    }
}

/// A child that runs has a number that no child had before it.
pub proof fn child_numbers_are_fresh(children: Children)
    requires
        children.wf(),
        children@.started < u64::MAX,
    ensures
        !children@.running.contains_key(next_child(children@)),
        next_child(children@) > children@.started,
{
}

/// Killing a child undoes starting it, except that its number is not given out again.
pub proof fn kill_undoes_spawn(children: Children, handle: ChildHandle)
    requires
        children.wf(),
        children@.started < u64::MAX,
        handle.child_id == next_child(children@),
    ensures
        without_child(with_child(children@, handle), handle.child_id).running
            == children@.running,
        with_child(children@, handle).running.contains_key(handle.child_id),
{
    child_numbers_are_fresh(children);
    assert(without_child(with_child(children@, handle), handle.child_id).running
        =~= children@.running);
}

/// Killing a child that is gone changes nothing.
pub proof fn killing_twice_is_killing_once(children: ChildrenView, child_id: u64)
    ensures
        !without_child(children, child_id).running.contains_key(child_id),
        without_child(without_child(children, child_id), child_id) == without_child(
            children,
            child_id,
        ),
{
    assert(without_child(children, child_id).running.remove(child_id) =~= without_child(
        children,
        child_id,
    ).running);
}

/// What a snapshot shows as running is what is kept: the children behind the handles that say
/// so, and no others.
pub proof fn snapshot_keeps_what_it_shows(
    handles: Seq<ChildHandle>,
    children: ChildrenView,
    alive: Seq<u64>,
)
    requires
        are_handles(handles, children, alive),
    ensures
        forall|i: int|
            0 <= i < handles.len() ==> (#[trigger] handles[i]).running == reaped(
                children,
                alive,
            ).running.contains_key(handles[i].child_id),
        forall|id: u64| #[trigger]
            reaped(children, alive).running.contains_key(id) ==> exists|i: int|
                0 <= i < handles.len() && (#[trigger] handles[i]).child_id == id
                    && handles[i].running,
{
    assert forall|i: int| 0 <= i < handles.len() implies (#[trigger] handles[i]).running == reaped(
        children,
        alive,
    ).running.contains_key(handles[i].child_id) by {
        assert(handle_ids(handles)[i] == handles[i].child_id);
        assert(handle_ids(handles).contains(handles[i].child_id));
    }
    assert forall|id: u64| #[trigger] reaped(children, alive).running.contains_key(id) implies exists|
        i: int,
    |
        0 <= i < handles.len() && (#[trigger] handles[i]).child_id == id && handles[i].running by {
        assert(handle_ids(handles).contains(id));
        let i = choose|i: int| 0 <= i < handle_ids(handles).len() && handle_ids(handles)[i] == id;
        assert(handles[i].child_id == id);
    }
}

/// A program that is started gets from its request what the request says: its arguments at the
/// end and in their order, and its directory if it names one. Each kind has its own beginning.
pub proof fn programs_get_their_request(request: SpawnChildCommand, facts: SpawnFacts)
    requires
        launch_of(request, facts) is Ok,
    ensures
        ({
            let launch = launch_of(request, facts)->Ok_0;
            let head = launch.args.len() - request.args@.len();
            &&& head == (match request.known_kind {
                ChildKind::Byedpi => 6int,
                ChildKind::Xray => 5,
                _ => 0,
            })
            &&& forall|i: int|
                0 <= i < request.args@.len() ==> launch.args[head + i] == (
                #[trigger] request.args@[i])@
            &&& request.working_dir@.len() > 0 ==> launch.working_dir == Some(request.working_dir@)
            &&& request.working_dir@.len() == 0 ==> launch.working_dir is None
            &&& request.known_kind == ChildKind::Vkturn ==> launch.program == request.binary_path@
                && launch.classpath is None
            &&& request.known_kind != ChildKind::Vkturn ==> {
                &&& launch.program == (if facts.has_app_process64 {
                    "/system/bin/app_process64"@
                } else {
                    "/system/bin/app_process"@
                })
                &&& launch.classpath == Some(request.classpath@)
                &&& launch.args[0] == "/system/bin"@
                &&& launch.args[1] == "wings.v.root.RootCommandMain"@
                &&& launch.args[3] == "--lib-dir"@
                &&& launch.args[4] == request.lib_dir@
            }
            &&& request.known_kind == ChildKind::Byedpi ==> launch.args[2] == "byedpi"@
                && launch.args[5] == "--"@
            &&& request.known_kind == ChildKind::Xray ==> launch.args[2] == "xray-tproxy"@
        }),
{
}

/// A request is refused exactly if its kind is not known or one of the paths that its kind uses
/// may not be used, and the error names the first of them.
pub proof fn requests_are_refused_by_path(request: SpawnChildCommand, facts: SpawnFacts)
    ensures
        launch_of(request, facts) is Err <==> ({
            match request.known_kind {
                ChildKind::Unset => true,
                ChildKind::Vkturn => !allowed_binary(request.binary_path@, facts.binary),
                _ => !app_owned(request.classpath@, facts.classpath) || !app_owned(
                    request.lib_dir@,
                    facts.lib_dir,
                ),
            }
        }),
        launch_of(request, facts) matches Err(message) ==> message == ({
            match request.known_kind {
                ChildKind::Unset => "child kind not set"@,
                ChildKind::Vkturn => "refusing to exec "@ + request.binary_path@
                    + ": not an app native library"@,
                _ => if !app_owned(request.classpath@, facts.classpath) {
                    "refusing classpath "@ + request.classpath@ + ": not an installed apk"@
                } else {
                    "refusing lib dir "@ + request.lib_dir@ + ": not an app library dir"@
                },
            }
        }),
{
}

/// A path is the package manager's own exactly if it is absolute, exists, and resolves to one
/// below the directory of installed packages.
pub proof fn owned_paths_are_installed(path: Seq<char>, facts: PathFacts)
    ensures
        app_owned(path, facts) <==> {
            &&& path.len() > 0 && path[0] == '/'
            &&& facts.exists
            &&& facts.resolved is Some
            &&& begins_with(utf8_lossy(facts.resolved->0@), "/data/app/"@)
        },
{
    lemma_absolute(path);
}

proof fn lemma_absolute(path: Seq<char>)
    ensures
        is_absolute(path) <==> path.len() > 0 && path[0] == '/',
{
    reveal_strlit("/");
    if path.len() > 0 && path[0] == '/' {
        assert(path.take(1) =~= "/"@);
    }
    if is_absolute(path) {
        assert(path.take(1)[0] == '/');
    }
}

/// The name of the app's own directory: the package's, or that with something behind a hyphen.
pub open spec fn is_own_name(name: Seq<char>) -> bool {
    ||| name == "wings.v"@
    ||| exists|suffix: Seq<char>| name == #[trigger] ("wings.v-"@ + suffix)
}

proof fn lemma_own_dir(name: Seq<char>)
    ensures
        own_dir(name) <==> is_own_name(name),
{
    reveal_strlit("wings.v");
    reveal_strlit("-");
    reveal_strlit("wings.v-");
    let stem = "wings.v-"@;
    assert(stem =~= "wings.v"@ + "-"@);
    if begins_with(name, stem) {
        let suffix = name.skip(stem.len() as int);
        assert(name =~= stem + suffix);
    }
    if exists|suffix: Seq<char>| name == #[trigger] ("wings.v-"@ + suffix) {
        let suffix = choose|suffix: Seq<char>| name == #[trigger] ("wings.v-"@ + suffix);
        assert(name.take(stem.len() as int) =~= stem);
    }
}

/// A binary may be started if it is a file by an absolute path that resolves to the app's own
/// library directory: below that of installed packages, behind a directory of the app's name,
/// and behind no other library directory.
pub proof fn own_libraries_may_be_started(
    path: Seq<char>,
    facts: PathFacts,
    front: Seq<char>,
    name: Seq<char>,
    back: Seq<char>,
)
    requires
        path.len() > 0,
        path[0] == '/',
        facts.is_file,
        facts.resolved is Some,
        utf8_lossy(facts.resolved->0@) == front + seq!['/'] + name + ("/lib/"@ + back),
        begins_with(front + seq!['/'] + name + ("/lib/"@ + back), "/data/app/"@),
        is_own_name(name),
        !name.contains('/'),
        forall|j: int|
            0 <= j < front.len() + 1 + name.len() ==> !begins_with(
                #[trigger] (front + seq!['/'] + name + ("/lib/"@ + back)).skip(j),
                "/lib/"@,
            ),
    ensures
        allowed_binary(path, facts),
{
    lemma_absolute(path);
    lemma_own_dir(name);
    let resolved = front + seq!['/'] + name + ("/lib/"@ + back);
    let i = (front.len() + 1 + name.len()) as int;
    assert(resolved.skip(i) =~= "/lib/"@ + back);
    assert(resolved.skip(i).take("/lib/"@.len() as int) =~= "/lib/"@);
    assert(first_part_at(resolved, "/lib/"@, i));
    let head = resolved.take(i);
    assert(head =~= front + seq!['/'] + name);
    lemma_component(front, name);
    assert(own_dir(after_last(resolved.take(i), '/')));
}

proof fn lemma_component(front: Seq<char>, name: Seq<char>)
    requires
        !name.contains('/'),
    ensures
        after_last(front + seq!['/'] + name, '/') == name,
{
    let text = front + seq!['/'] + name;
    last_part_follows_the_last_mark(text, '/');
    let part = after_last(text, '/');
    let from = text.len() - part.len();
    if part.len() > name.len() {
        let k = front.len() - from;
        assert(part[k] == text[front.len() as int]);
        assert(part.contains('/'));
    } else if part.len() < name.len() {
        assert(text[from - 1] == name[from - 1 - front.len() - 1]);
        assert(name.contains('/'));
    } else {
        assert(text.skip(from) =~= name);
    }
}

/// A binary that may be started is a file by an absolute path that resolves to a library
/// directory in a directory of the app's name, below that of installed packages.
pub proof fn started_binaries_are_own_libraries(path: Seq<char>, facts: PathFacts)
    requires
        allowed_binary(path, facts),
    ensures
        path.len() > 0 && path[0] == '/',
        facts.is_file,
        facts.resolved is Some,
        ({
            let resolved = utf8_lossy(facts.resolved->0@);
            &&& begins_with(resolved, "/data/app/"@)
            &&& exists|head: Seq<char>, back: Seq<char>|
                resolved == #[trigger] (head + ("/lib/"@ + back)) && is_own_name(
                    after_last(head, '/'),
                )
        }),
{
    lemma_absolute(path);
    let resolved = utf8_lossy(facts.resolved->0@);
    let i = choose|i: int|
        #[trigger] first_part_at(resolved, "/lib/"@, i) && own_dir(
            after_last(resolved.take(i), '/'),
        );
    let head = resolved.take(i);
    lemma_own_dir(after_last(head, '/'));
    let back = resolved.skip(i).skip("/lib/"@.len() as int);
    assert(resolved.skip(i).take("/lib/"@.len() as int) + back =~= resolved.skip(i));
    assert(head + resolved.skip(i) =~= resolved);
    assert(resolved == head + ("/lib/"@ + back));
}

/// A child that was started is shown as it was started: with its kind, its process and the next
/// number, and running as long as it is alive. The other children stay as they are.
pub proof fn started_children_are_shown(
    children: ChildrenView,
    request: SpawnChildCommand,
    facts: SpawnFacts,
    process: u32,
    alive: Seq<u64>,
    other: u64,
)
    requires
        launch_of(request, facts) is Ok,
        children.started < u64::MAX,
    ensures
        spawn_step(children, request, facts, ExecOutcome::Started(process)) matches
            SpawnStepView::Running(handle) && ({
            let after = with_child(children, handle);
            &&& handle.kind == request.kind
            &&& handle.running
            &&& handle.child_id == children.started + 1
            &&& process <= i32::MAX ==> handle.pid == process
            &&& after.started == children.started + 1
            &&& after.running.contains_key(handle.child_id)
            &&& handle_of(after, handle.child_id, alive) == (ChildHandle {
                running: alive.contains(handle.child_id),
                ..handle
            })
            &&& other != handle.child_id ==> after.running.contains_key(other)
                == children.running.contains_key(other) && after.running[other]
                == children.running[other]
        }),
{
    let pid = process as i32;
    assert(process <= 0x7fff_ffff ==> pid == process) by (bit_vector)
        requires
            pid == process as i32,
    ;
}

/// A program that could not be started leaves an error that names the kind and ends with the
/// cause, and no child.
pub proof fn failed_starts_leave_no_child(
    children: ChildrenView,
    request: SpawnChildCommand,
    facts: SpawnFacts,
    error: String,
)
    requires
        launch_of(request, facts) is Ok,
    ensures
        spawn_step(children, request, facts, ExecOutcome::Failed(error)) == SpawnStepView::Refused(
            "spawn kind "@ + signed_decimal(request.kind as int) + ": "@ + error@,
        ),
        after_spawn(
            children,
            spawn_step(children, request, facts, ExecOutcome::Failed(error)),
        ) == children,
        spawn_step(children, request, facts, ExecOutcome::NotYet) == SpawnStepView::Exec(
            launch_of(request, facts)->Ok_0,
        ),
        after_spawn(children, spawn_step(children, request, facts, ExecOutcome::NotYet))
            == children,
{
}

/// Killing one child spares the others, and reaping spares those that are alive: they keep their
/// kind and their process.
pub proof fn others_are_spared(children: ChildrenView, child_id: u64, alive: Seq<u64>, other: u64)
    ensures
        !without_child(children, child_id).running.contains_key(child_id),
        other != child_id ==> without_child(children, child_id).running.contains_key(other)
            == children.running.contains_key(other),
        other != child_id ==> without_child(children, child_id).running[other]
            == children.running[other],
        reaped(children, alive).running.contains_key(other) <==> children.running.contains_key(
            other,
        ) && alive.contains(other),
        reaped(children, alive).running.contains_key(other) ==> reaped(
            children,
            alive,
        ).running[other] == children.running[other],
        without_child(children, child_id).started == children.started,
        reaped(children, alive).started == children.started,
{
}

/// Every child has exactly one handle in a snapshot, with its own kind and process.
pub proof fn snapshots_show_every_child(
    handles: Seq<ChildHandle>,
    children: ChildrenView,
    alive: Seq<u64>,
    id: u64,
)
    requires
        are_handles(handles, children, alive),
    ensures
        children.running.contains_key(id) <==> exists|i: int|
            0 <= i < handles.len() && (#[trigger] handles[i]).child_id == id,
        forall|i: int, j: int|
            0 <= i < handles.len() && 0 <= j < handles.len() && (#[trigger] handles[i]).child_id
                == (#[trigger] handles[j]).child_id ==> i == j,
        forall|i: int|
            0 <= i < handles.len() ==> {
                let entry = children.running[handles[i].child_id];
                &&& (#[trigger] handles[i]).kind == entry.kind
                &&& handles[i].pid == entry.pid
                &&& handles[i].running == alive.contains(handles[i].child_id)
            },
{
    let ids = handle_ids(handles);
    assert forall|i: int, j: int|
        0 <= i < handles.len() && 0 <= j < handles.len() && (#[trigger] handles[i]).child_id == (
        #[trigger] handles[j]).child_id implies i == j by {
        assert(ids[i] == ids[j]);
    }
    if ids.contains(id) {
        let i = choose|i: int| 0 <= i < ids.len() && ids[i] == id;
        assert(handles[i].child_id == id);
    }
    if exists|i: int| 0 <= i < handles.len() && (#[trigger] handles[i]).child_id == id {
        let i = choose|i: int| 0 <= i < handles.len() && (#[trigger] handles[i]).child_id == id;
        assert(ids[i] == id);
    }
}

} // verus!
