//! The order in which projects are generated: every project after the
//! projects it depends on, each project once.
//!
//! The resolver decides and the caller acts. `pending` says what is to be
//! done next: open the project behind a dependency, scan the files of the
//! project whose dependencies are settled, or stop. The caller answers
//! with `opened` or `complete`.

use vstd::prelude::*;
use crate::dependency::Dependency;
use crate::project::{Project, ProjectClass};
use crate::text::{same_text, texts};
use crate::visualstudio::{can_file_paths, can_includes, covers, each_joined, fails_to_generate, generate_vcxproj, is_generated, same_desc, strays, Generated, Outcome, ProjDesc};
use crate::ClinkError;

verus! {

/// What became of one dependency, as the resolver keeps it.
#[derive(Debug, Clone, Copy, PartialEq, Eq, Structural)]
pub enum Settled {
    /// The dependency points at a description file and was never opened.
    External,
    /// The project behind it is of class external and was passed over.
    PassedOver,
    /// The project behind it was generated and stands at this place in the
    /// order.
    Reference(usize),
}

/// A project whose dependencies are being resolved.
#[derive(Debug, Clone, PartialEq, Eq)]
pub struct Frame {
    pub project: Project,
    /// The directory of the project.
    pub location: String,
    /// What became of the first dependencies of the project, one entry for
    /// each, in order. The next dependency is the one that comes after them.
    pub settled: Vec<Settled>,
}

/// A generated project.
#[derive(Debug, Clone, PartialEq, Eq)]
pub struct Resolved {
    pub desc: ProjDesc,
    /// The directory of the project.
    pub location: String,
    pub project: Project,
    /// What became of each dependency of the project, in order.
    pub settled: Vec<Settled>,
}

/// What the caller is to do next.
#[derive(Debug, Clone, PartialEq, Eq)]
pub enum Action {
    /// Open the project at this path and hand it to `opened`.
    Open(String),
    /// Walk those of `sources` that exist, see which of `headers` exist,
    /// and hand both to `complete`.
    Scan { sources: Vec<String>, headers: Vec<String> },
    /// Every project is generated.
    Finished,
}

/// What became of an opened dependency, for the caller to tell the user.
#[derive(Debug, Clone, Copy, PartialEq, Eq, Structural)]
pub enum Opened {
    /// The project is of class external and was passed over.
    PassedOver,
    /// The project was generated before and is referred to again.
    Known,
    /// The project is new and is resolved next.
    Entered,
}

/// What becomes of an opened dependency.
pub enum Verdict {
    /// No dependency was waiting to be opened.
    Unexpected,
    /// The project is of class external: it is passed over.
    External,
    /// The project is still being resolved: the dependencies form a cycle.
    Cycle,
    /// A project of this name was generated from another place.
    Conflict(int),
    /// The project was generated before, from this place.
    Known(int),
    /// The project is met for the first time.
    New,
}

/// What is reported where a project is handed in and none was asked for.
pub open spec fn nothing_to_open() -> Seq<char> {
    "no dependency is waiting to be opened"@
}

/// What is reported where files are handed in and no project is ready.
pub open spec fn nothing_to_generate() -> Seq<char> {
    "no project is waiting to be generated"@
}

/// The first dependency at or after `from` that is not external, or the
/// number of dependencies where there is none.
pub open spec fn next_open_edge(dependencies: Seq<Dependency>, from: int) -> int
    decreases dependencies.len() - from,
{
    if from < 0 || from >= dependencies.len() {
        dependencies.len() as int
    } else if !dependencies[from].external() {
        from
    } else {
        next_open_edge(dependencies, from + 1)
    }
}

/// Every dependency that is passed over on the way to the one that is
/// opened next is external, and the one that is opened is not.
pub proof fn lemma_only_external_edges_are_skipped(dependencies: Seq<Dependency>, from: int)
    requires
        0 <= from <= dependencies.len(),
    ensures
        from <= next_open_edge(dependencies, from) <= dependencies.len(),
        forall|j: int|
            from <= j < next_open_edge(dependencies, from) ==> (#[trigger] dependencies[j]).external(),
        next_open_edge(dependencies, from) < dependencies.len() ==> !dependencies[next_open_edge(
            dependencies,
            from,
        )].external(),
    decreases dependencies.len() - from,
{
    if from < dependencies.len() && dependencies[from].external() {
        lemma_only_external_edges_are_skipped(dependencies, from + 1);
    }
}

/// The place of the first project of this name among the generated ones,
/// or -1.
pub open spec fn index_of_name(done: Seq<Resolved>, name: Seq<char>) -> int
    decreases done.len(),
{
    if done.len() == 0 {
        -1
    } else if index_of_name(done.drop_last(), name) >= 0 {
        index_of_name(done.drop_last(), name)
    } else if done.last().desc.name@ == name {
        done.len() - 1
    } else {
        -1
    }
}

/// `index_of_name` finds a project of the name wherever there is one.
pub proof fn lemma_index_of_name(done: Seq<Resolved>, name: Seq<char>)
    ensures
        -1 <= index_of_name(done, name) < done.len(),
        index_of_name(done, name) >= 0 ==> done[index_of_name(done, name)].desc.name@ == name,
        forall|j: int|
            0 <= j < index_of_name(done, name) ==> (#[trigger] done[j]).desc.name@ != name,
        index_of_name(done, name) < 0 ==> forall|j: int|
            0 <= j < done.len() ==> (#[trigger] done[j]).desc.name@ != name,
    decreases done.len(),
{
    if done.len() > 0 {
        lemma_index_of_name(done.drop_last(), name);
        assert forall|j: int| 0 <= j < index_of_name(done, name) implies (#[trigger] done[j]).desc.name@
            != name by {
            assert(done.drop_last()[j] == done[j]);
        }
        if index_of_name(done, name) < 0 {
            assert forall|j: int| 0 <= j < done.len() implies (#[trigger] done[j]).desc.name@
                != name by {
                if j < done.len() - 1 {
                    assert(done.drop_last()[j] == done[j]);
                }
            }
        }
    }
}

/// As many external outcomes as dependencies were never opened.
pub open spec fn skipped(n: int) -> Seq<Settled> {
    Seq::new(
        if n >= 0 {
            n as nat
        } else {
            0
        },
        |i: int| Settled::External,
    )
}

/// Whether `settled` says of the first dependencies what can be said of
/// them: exactly those that point at a description file are external, and
/// a reference leads to one of the first `bound` generated projects, which
/// lies where the dependency points.
pub open spec fn settles(
    dependencies: Seq<Dependency>,
    settled: Seq<Settled>,
    order: Seq<Resolved>,
    bound: int,
) -> bool {
    &&& settled.len() <= dependencies.len()
    &&& forall|k: int|
        0 <= k < settled.len() ==> ((#[trigger] settled[k]) is External
            <==> dependencies[k].external())
    &&& forall|k: int|
        0 <= k < settled.len() ==> ((#[trigger] settled[k]) matches Settled::Reference(i) ==> i
            < bound && i < order.len() && order[i as int].location@ == dependencies[k].path@)
}

/// Whether `below` waits for `above`: its next dependency points at a
/// project, and `above` lies where it points.
pub open spec fn waits(below: Frame, above: Frame) -> bool {
    &&& below.settled@.len() < below.project.dependencies@.len()
    &&& !below.project.dependencies@[below.settled@.len() as int].external()
    &&& above.location@ == below.project.dependencies@[below.settled@.len() as int].path@
}

/// Whether `after` is `before` with the top frame moved on: the
/// dependencies up to `upto` are recorded as external and, where there is
/// an outcome, the dependency at `upto` has it.
pub open spec fn advanced(
    before: Seq<Frame>,
    after: Seq<Frame>,
    upto: int,
    outcome: Option<Settled>,
) -> bool {
    &&& before.len() > 0
    &&& after.len() == before.len()
    &&& after.drop_last() == before.drop_last()
    &&& after.last().project == before.last().project
    &&& after.last().location == before.last().location
    &&& after.last().settled@ == before.last().settled@ + skipped(
        upto - before.last().settled@.len(),
    ) + match outcome {
        Some(o) => seq![o],
        None => Seq::empty(),
    }
}

/// The state of a resolution.
#[derive(Debug, Clone, PartialEq, Eq)]
pub struct Resolver {
    root_name: String,
    stack: Vec<Frame>,
    done: Vec<Resolved>,
}

impl Resolver {
    /// The name of the project that the resolution started from.
    pub closed spec fn root(self) -> Seq<char> {
        self.root_name@
    }

    /// The projects being resolved, the root first; each but the root is a
    /// dependency of the one before it.
    pub closed spec fn frames(self) -> Seq<Frame> {
        self.stack@
    }

    /// The projects generated so far, in the order of their generation.
    pub closed spec fn order(self) -> Seq<Resolved> {
        self.done@
    }

    /// The dependency of the top frame that is to be opened next, or -1
    /// where none is.
    pub open spec fn waiting_edge(self) -> int {
        if self.frames().len() == 0 {
            -1
        } else {
            let top = self.frames().last();
            let k = next_open_edge(top.project.dependencies@, top.settled@.len() as int);
            if k < top.project.dependencies@.len() {
                k
            } else {
                -1
            }
        }
    }

    /// Whether the top frame has all its dependencies settled.
    pub open spec fn ready(self) -> bool {
        self.frames().len() > 0 && self.waiting_edge() < 0
    }

    /// Whether a project of this name is being resolved.
    pub open spec fn stack_has(self, name: Seq<char>) -> bool {
        exists|i: int|
            0 <= i < self.frames().len() && (#[trigger] self.frames()[i]).project.name@ == name
    }

    /// What becomes of `project`, opened for the waiting dependency.
    pub open spec fn verdict(self, project: Project) -> Verdict {
        let k = self.waiting_edge();
        if k < 0 {
            Verdict::Unexpected
        } else if project.class == ProjectClass::External {
            Verdict::External
        } else if self.stack_has(project.name@) {
            Verdict::Cycle
        } else {
            let i = index_of_name(self.order(), project.name@);
            if i < 0 {
                Verdict::New
            } else if self.order()[i].location@
                == self.frames().last().project.dependencies@[k].path@ {
                Verdict::Known(i)
            } else {
                Verdict::Conflict(i)
            }
        }
    }

    /// Whether the generated project at place `at` is needed: a project
    /// being resolved or a project generated after it refers to it, or it
    /// is the root, which stands last once nothing is left to resolve.
    pub open spec fn needed(self, at: int) -> bool {
        ||| exists|i: int, k: int|
            0 <= i < self.frames().len() && 0 <= k < self.frames()[i].settled@.len()
                && #[trigger] self.frames()[i].settled@[k] == Settled::Reference(at as usize)
        ||| self.referred_later(at)
        ||| self.frames().len() == 0 && at == self.order().len() - 1
    }

    /// Whether a project generated after the one at place `at` refers to
    /// it.
    pub open spec fn referred_later(self, at: int) -> bool {
        exists|i: int, k: int|
            at < i < self.order().len() && 0 <= k < self.order()[i].settled@.len()
                && #[trigger] self.order()[i].settled@[k] == Settled::Reference(at as usize)
    }

    /// What holds of every state that a resolution passes through: what
    /// is recorded is consistent, and every generated project is needed.
    pub open spec fn wf(self) -> bool {
        &&& self.consistent()
        &&& forall|at: int| 0 <= at < self.order().len() ==> #[trigger] self.needed(at)
    }

    /// Whether what is recorded is consistent.
    ///
    /// Of a project being resolved, the dependencies settled so far are
    /// recorded truly, and each frame below the top waits for the project
    /// above it, which lies where its next dependency points. Of a
    /// generated project, every dependency is settled: it is external, or
    /// was passed over, or leads to a project that stands before it in the
    /// order and lies where the dependency points. No
    /// name occurs twice among the projects generated or being resolved.
    /// The root lies at the bottom of the stack or, once the stack is
    /// empty, at the end of the order.
    pub open spec fn consistent(self) -> bool {
        &&& forall|i: int|
            0 <= i < self.frames().len() ==> settles(
                (#[trigger] self.frames()[i]).project.dependencies@,
                self.frames()[i].settled@,
                self.order(),
                self.order().len() as int,
            )
        &&& forall|i: int, j: int|
            0 <= i && j == i + 1 && j < self.frames().len() ==> waits(
                #[trigger] self.frames()[i],
                #[trigger] self.frames()[j],
            )
        &&& forall|i: int|
            0 <= i < self.order().len() ==> {
                &&& settles(
                    (#[trigger] self.order()[i]).project.dependencies@,
                    self.order()[i].settled@,
                    self.order(),
                    i,
                )
                &&& self.order()[i].settled@.len() == self.order()[i].project.dependencies@.len()
                &&& self.order()[i].desc.name@ == self.order()[i].project.name@
            }
        &&& forall|i: int, j: int|
            0 <= i < j < self.frames().len() ==> (#[trigger] self.frames()[i]).project.name@ != (
            #[trigger] self.frames()[j]).project.name@
        &&& forall|i: int, j: int|
            0 <= i < j < self.order().len() ==> (#[trigger] self.order()[i]).desc.name@ != (
            #[trigger] self.order()[j]).desc.name@
        &&& forall|i: int, j: int|
            0 <= i < self.frames().len() && 0 <= j < self.order().len() ==> (
            #[trigger] self.frames()[i]).project.name@ != (#[trigger] self.order()[j]).desc.name@
        &&& self.frames().len() > 0 ==> self.frames()[0].project.name@ == self.root()
        &&& self.frames().len() == 0 ==> self.order().len() > 0 && self.order().last().desc.name@
            == self.root()
    }

    /// Whether `outcomes` say of the dependencies of the top frame what
    /// the frame has recorded, with every dependency after the recorded
    /// ones external and every reference replaced by a descriptor that says
    /// what the referred project's descriptor says.
    pub open spec fn settles_as(self, outcomes: Seq<Outcome>) -> bool {
        let top = self.frames().last();
        let all = top.settled@ + skipped(top.project.dependencies@.len() - top.settled@.len());
        &&& self.frames().len() > 0
        &&& outcomes.len() == all.len()
        &&& forall|k: int|
            0 <= k < outcomes.len() ==> match all[k] {
                Settled::External => (#[trigger] outcomes[k]) is External,
                Settled::PassedOver => outcomes[k] is PassedOver,
                Settled::Reference(i) => outcomes[k] matches Outcome::Referred(desc) && same_desc(
                    desc,
                    self.order()[i as int].desc,
                ),
            }
    }

    /// The resolution of `root`, which lies at `location`: nothing is
    /// generated yet and the root waits for its dependencies.
    pub fn new(root: Project, location: String) -> (r: Resolver)
        ensures
            r.wf(),
            r.root() == root.name@,
            r.order().len() == 0,
            r.frames().len() == 1,
            r.frames()[0].project == root,
            r.frames()[0].location == location,
            r.frames()[0].settled@.len() == 0,
    {
        let root_name = root.name.clone();
        let mut stack: Vec<Frame> = Vec::new();
        stack.push(Frame { project: root, location, settled: Vec::new() });
        Resolver { root_name, stack, done: Vec::new() }
    }

    /// Whether a project of this name is being resolved.
    pub fn on_stack(&self, name: &str) -> (r: bool)
        ensures
            r == self.stack_has(name@),
    {
        let mut i: usize = 0;
        while i < self.stack.len()
            invariant
                i <= self.frames().len(),
                forall|j: int| 0 <= j < i ==> (#[trigger] self.frames()[j]).project.name@ != name@,
            decreases self.frames().len() - i,
        {
            if same_text(self.stack[i].project.name.as_str(), name) {
                return true;
            }
            i += 1;
        }
        false
    }

    /// The place of the generated project of this name, if there is one.
    pub fn find_done(&self, name: &str) -> (r: Option<usize>)
        ensures
            match r {
                Some(i) => i as int == index_of_name(self.order(), name@),
                None => index_of_name(self.order(), name@) < 0,
            },
    {
        let mut i: usize = 0;
        while i < self.done.len()
            invariant
                i <= self.order().len(),
                forall|j: int| 0 <= j < i ==> (#[trigger] self.order()[j]).desc.name@ != name@,
            decreases self.order().len() - i,
        {
            if same_text(self.done[i].desc.name.as_str(), name) {
                proof {
                    lemma_index_of_name(self.order(), name@);
                }
                return Some(i);
            }
            i += 1;
        }
        proof {
            lemma_index_of_name(self.order(), name@);
        }
        None
    }

    /// Moves the top frame on: records the dependencies up to `upto` as
    /// external and gives the dependency at `upto` its outcome, if any.
    fn advance_top(&mut self, upto: usize, outcome: Option<Settled>)
        requires
            old(self).consistent(),
            old(self).frames().len() > 0,
            old(self).frames().last().settled@.len() <= upto
                <= old(self).frames().last().project.dependencies@.len(),
            forall|j: int|
                old(self).frames().last().settled@.len() <= j < upto ==> (#[trigger] old(
                    self,
                ).frames().last().project.dependencies@[j]).external(),
            outcome matches Some(o) ==> {
                &&& upto < old(self).frames().last().project.dependencies@.len()
                &&& !old(self).frames().last().project.dependencies@[upto as int].external()
                &&& !(o is External)
                &&& o matches Settled::Reference(i) ==> i < old(self).order().len() && old(
                    self,
                ).order()[i as int].location@ == old(
                    self,
                ).frames().last().project.dependencies@[upto as int].path@
            },
        ensures
            final(self).consistent(),
            final(self).order() == old(self).order(),
            final(self).root() == old(self).root(),
            advanced(old(self).frames(), final(self).frames(), upto as int, outcome),
    {
        let ghost before = self.stack@;
        let mut frame = self.stack.pop().unwrap();
        let ghost recorded = frame.settled@;
        pad(&mut frame.settled, upto);
        match outcome {
            Some(o) => {
                frame.settled.push(o);
            },
            None => {},
        }
        proof {
            let now = frame.settled@;
            assert(now =~= recorded + skipped(upto - recorded.len()) + match outcome {
                Some(o) => seq![o],
                None => Seq::empty(),
            });
            assert forall|k: int| 0 <= k < now.len() implies ((#[trigger] now[k]) is External
                <==> frame.project.dependencies@[k].external()) by {
                if k < recorded.len() {
                    assert(now[k] == recorded[k]);
                } else if k < upto {
                    assert(frame.project.dependencies@[k].external());
                }
            }
            assert forall|k: int| 0 <= k < now.len() implies ((#[trigger] now[k]) matches Settled::Reference(
                i,
            ) ==> i < self.done@.len() && self.done@[i as int].location@
                == frame.project.dependencies@[k].path@) by {
                if k < recorded.len() {
                    assert(now[k] == recorded[k]);
                }
            }
        }
        self.stack.push(frame);
        proof {
            let after = self.stack@;
            assert(after.drop_last() =~= before.drop_last());
            assert forall|i: int| 0 <= i < after.len() - 1 implies #[trigger] after[i]
                == before[i] by {
                assert(after[i] == after.drop_last()[i]);
                assert(before[i] == before.drop_last()[i]);
            }
            assert(after[after.len() - 1].location == before[before.len() - 1].location);
            assert forall|i: int, j: int| 0 <= i && j == i + 1 && j < after.len() implies waits(
                #[trigger] after[i],
                #[trigger] after[j],
            ) by {
                assert(waits(before[i], before[j]));
            }
        }
    }

    /// What the caller is to do next.
    pub fn pending(&self) -> (action: Action)
        requires
            self.wf(),
        ensures
            match action {
                Action::Open(path) => self.waiting_edge() >= 0
                    && path@ == self.frames().last().project.dependencies@[self.waiting_edge()].path@,
                Action::Scan { sources, headers } => {
                    &&& self.ready()
                    &&& texts(sources@) == each_joined(
                        self.frames().last().location@,
                        self.frames().last().project.compile_relative_paths@,
                    ) + each_joined(
                        self.frames().last().location@,
                        self.frames().last().project.include_relative_paths@,
                    )
                    &&& texts(headers@) == each_joined(
                        self.frames().last().location@,
                        self.frames().last().project.include_relative_paths@,
                    )
                },
                Action::Finished => self.frames().len() == 0,
            },
    {
        let n = self.stack.len();
        if n == 0 {
            return Action::Finished;
        }
        let top = &self.stack[n - 1];
        let k = find_open_edge(&top.project.dependencies, top.settled.len());
        if k < top.project.dependencies.len() {
            Action::Open(top.project.dependencies[k].path.clone())
        } else {
            Action::Scan {
                sources: can_file_paths(&top.project, top.location.as_str()),
                headers: can_includes(&top.project, top.location.as_str()),
            }
        }
    }

    /// Takes the project that the caller opened for the waiting
    /// dependency. A project of class external is passed over. A project
    /// that is still being resolved closes a cycle. A project generated
    /// before is referred to again if it lies where the dependency points,
    /// and is a conflict of names if it lies elsewhere. A new project is
    /// resolved before the one that depends on it goes on.
    pub fn opened(&mut self, project: Project) -> (r: Result<Opened, ClinkError>)
        requires
            old(self).wf(),
        ensures
            final(self).wf(),
            final(self).order() == old(self).order(),
            final(self).root() == old(self).root(),
            r is Err ==> final(self).frames() == old(self).frames(),
            match old(self).verdict(project) {
                Verdict::Unexpected => r matches Err(ClinkError::InternalConsistency(text))
                    && text@ == nothing_to_open(),
                Verdict::External => r == Ok::<Opened, ClinkError>(Opened::PassedOver) && advanced(
                    old(self).frames(),
                    final(self).frames(),
                    old(self).waiting_edge(),
                    Some(Settled::PassedOver),
                ),
                Verdict::Cycle => r matches Err(ClinkError::CyclicDependency(name)) && name@
                    == project.name@,
                Verdict::Conflict(i) => {
                    &&& r matches Err(ClinkError::NameConflict(name, first, second))
                    &&& name@ == project.name@
                    &&& first@ == old(self).order()[i].location@
                    &&& second@ == old(self).frames().last().project.dependencies@[old(
                        self,
                    ).waiting_edge()].path@
                },
                Verdict::Known(i) => r == Ok::<Opened, ClinkError>(Opened::Known) && advanced(
                    old(self).frames(),
                    final(self).frames(),
                    old(self).waiting_edge(),
                    Some(Settled::Reference(i as usize)),
                ),
                Verdict::New => {
                    &&& r == Ok::<Opened, ClinkError>(Opened::Entered)
                    &&& final(self).frames().len() == old(self).frames().len() + 1
                    &&& advanced(
                        old(self).frames(),
                        final(self).frames().drop_last(),
                        old(self).waiting_edge(),
                        None,
                    )
                    &&& final(self).frames().last().project == project
                    &&& final(self).frames().last().location@ == old(
                        self,
                    ).frames().last().project.dependencies@[old(self).waiting_edge()].path@
                    &&& final(self).frames().last().settled@.len() == 0
                },
            },
    {
        let n = self.stack.len();
        if n == 0 {
            return Err(
                ClinkError::InternalConsistency("no dependency is waiting to be opened".to_owned()),
            );
        }
        let k = find_open_edge(
            &self.stack[n - 1].project.dependencies,
            self.stack[n - 1].settled.len(),
        );
        if k >= self.stack[n - 1].project.dependencies.len() {
            return Err(
                ClinkError::InternalConsistency("no dependency is waiting to be opened".to_owned()),
            );
        }
        proof {
            lemma_only_external_edges_are_skipped(
                self.stack@.last().project.dependencies@,
                self.stack@.last().settled@.len() as int,
            );
        }
        match project.class {
            ProjectClass::External => {
                self.advance_top(k, Some(Settled::PassedOver));
                proof {
                    lemma_advanced_grows(
                        old(self).frames(),
                        self.frames(),
                        k as int,
                        Some(Settled::PassedOver),
                    );
                    lemma_needed_after_growth(*old(self), *self);
                }
                return Ok(Opened::PassedOver);
            },
            _ => {},
        }
        if self.on_stack(project.name.as_str()) {
            return Err(ClinkError::CyclicDependency(project.name.clone()));
        }
        proof {
            lemma_index_of_name(self.done@, project.name@);
        }
        match self.find_done(project.name.as_str()) {
            Some(i) => {
                let path = &self.stack[n - 1].project.dependencies[k].path;
                if same_text(self.done[i].location.as_str(), path.as_str()) {
                    self.advance_top(k, Some(Settled::Reference(i)));
                    proof {
                        lemma_advanced_grows(
                            old(self).frames(),
                            self.frames(),
                            k as int,
                            Some(Settled::Reference(i)),
                        );
                        lemma_needed_after_growth(*old(self), *self);
                    }
                    Ok(Opened::Known)
                } else {
                    Err(
                        ClinkError::NameConflict(
                            project.name.clone(),
                            self.done[i].location.clone(),
                            path.clone(),
                        ),
                    )
                }
            },
            None => {
                let location = self.stack[n - 1].project.dependencies[k].path.clone();
                self.advance_top(k, None);
                let ghost middle = self.stack@;
                self.stack.push(Frame { project, location, settled: Vec::new() });
                proof {
                    let after = self.stack@;
                    assert(after.drop_last() =~= middle);
                    assert forall|i: int| 0 <= i < middle.len() implies (#[trigger] after[i]).project
                        == old(self).stack@[i].project by {
                        if i < middle.len() - 1 {
                            assert(middle[i] == middle.drop_last()[i]);
                            assert(old(self).stack@[i] == old(self).stack@.drop_last()[i]);
                        }
                    }
                    assert forall|i: int, j: int| 0 <= i < j < after.len() implies (
                    #[trigger] after[i]).project.name@ != (#[trigger] after[j]).project.name@ by {
                        if j == after.len() - 1 {
                            assert(old(self).stack@[i].project.name@ != project.name@);
                        } else {
                            assert(middle[i].project.name@ != middle[j].project.name@);
                        }
                    }
                    assert forall|i: int, j: int|
                        0 <= i && j == i + 1 && j < after.len() implies waits(
                        #[trigger] after[i],
                        #[trigger] after[j],
                    ) by {
                        if j < middle.len() {
                            assert(middle[i] == middle.drop_last()[i]);
                            assert(old(self).stack@[i] == old(self).stack@.drop_last()[i]);
                            assert(waits(old(self).stack@[i], old(self).stack@[j]));
                            if j < middle.len() - 1 {
                                assert(middle[j] == middle.drop_last()[j]);
                                assert(old(self).stack@[j] == old(self).stack@.drop_last()[j]);
                            }
                        } else {
                            assert(middle[i].settled@.len() == k);
                        }
                    }
                    assert(self.consistent());
                    lemma_advanced_grows(old(self).frames(), middle, k as int, None);
                    assert forall|i: int| 0 <= i < middle.len() implies #[trigger] after[i]
                        == middle[i] by {
                        assert(after.drop_last()[i] == middle[i]);
                    }
                    lemma_needed_after_growth(*old(self), *self);
                }
                Ok(Opened::Entered)
            },
        }
    }

    /// What became of each dependency of the top frame, with a copy of the
    /// descriptor of each project that it refers to.
    fn outcomes(&self) -> (outcomes: Vec<Outcome>)
        requires
            self.wf(),
            self.ready(),
        ensures
            self.settles_as(outcomes@),
            covers(self.frames().last().project, outcomes@),
    {
        let top = &self.stack[self.stack.len() - 1];
        let ghost all = top.settled@ + skipped(
            top.project.dependencies@.len() - top.settled@.len(),
        );
        proof {
            lemma_only_external_edges_are_skipped(
                top.project.dependencies@,
                top.settled@.len() as int,
            );
        }
        let mut outcomes: Vec<Outcome> = Vec::new();
        let mut k: usize = 0;
        while k < top.project.dependencies.len()
            invariant
                self.wf(),
                self.frames().len() > 0,
                *top == self.frames().last(),
                all == top.settled@ + skipped(top.project.dependencies@.len() - top.settled@.len()),
                forall|j: int|
                    top.settled@.len() <= j < top.project.dependencies@.len() ==> (
                    #[trigger] top.project.dependencies@[j]).external(),
                k <= top.project.dependencies@.len(),
                outcomes@.len() == k,
                forall|j: int|
                    0 <= j < k ==> ((#[trigger] outcomes@[j]) is External
                        <==> top.project.dependencies@[j].external()),
                forall|j: int|
                    0 <= j < k ==> match all[j] {
                        Settled::External => (#[trigger] outcomes@[j]) is External,
                        Settled::PassedOver => outcomes@[j] is PassedOver,
                        Settled::Reference(i) => outcomes@[j] matches Outcome::Referred(desc)
                            && same_desc(desc, self.order()[i as int].desc),
                    },
            decreases top.project.dependencies@.len() - k,
        {
            assert(settles(
                self.frames()[self.frames().len() - 1].project.dependencies@,
                top.settled@,
                self.order(),
                self.order().len() as int,
            ));
            if k < top.settled.len() {
                assert(all[k as int] == top.settled@[k as int]);
                match top.settled[k] {
                    Settled::External => outcomes.push(Outcome::External),
                    Settled::PassedOver => outcomes.push(Outcome::PassedOver),
                    Settled::Reference(i) => outcomes.push(
                        Outcome::Referred(self.done[i].desc.copy()),
                    ),
                }
            } else {
                assert(all[k as int] == Settled::External);
                outcomes.push(Outcome::External);
            }
            k += 1;
        }
        outcomes
    }

    /// Generates the project whose dependencies are settled. `includes`
    /// are its header directories that exist, `found` the files that a
    /// walk of its source roots met. The project joins the order, and the
    /// project that depends on it refers to it. Nothing changes where the
    /// project cannot be generated.
    #[verifier::rlimit(60)]
    pub fn complete(&mut self, includes: &Vec<String>, found: &Vec<String>) -> (r: Result<
        Generated,
        ClinkError,
    >)
        requires
            old(self).wf(),
        ensures
            final(self).wf(),
            final(self).root() == old(self).root(),
            match r {
                Ok(g) => {
                    &&& old(self).ready()
                    &&& old(self).frames().last().project.class != ProjectClass::External
                    &&& !strays(found@, old(self).frames().last().location@)
                    &&& exists|outcomes: Seq<Outcome>|
                        #![auto]
                        old(self).settles_as(outcomes) && is_generated(
                            g,
                            old(self).frames().last().project,
                            old(self).frames().last().location@,
                            includes@,
                            found@,
                            outcomes,
                        )
                    &&& final(self).order().len() == old(self).order().len() + 1
                    &&& final(self).order().drop_last() == old(self).order()
                    &&& same_desc(final(self).order().last().desc, g.desc)
                    &&& final(self).order().last().location == old(self).frames().last().location
                    &&& final(self).order().last().project == old(self).frames().last().project
                    &&& final(self).order().last().settled@ == old(self).frames().last().settled@
                        + skipped(
                        old(self).frames().last().project.dependencies@.len() - old(
                            self,
                        ).frames().last().settled@.len(),
                    )
                    &&& old(self).frames().len() == 1 ==> final(self).frames().len() == 0
                    &&& old(self).frames().len() > 1 ==> advanced(
                        old(self).frames().drop_last(),
                        final(self).frames(),
                        old(self).frames()[old(self).frames().len() - 2].settled@.len() as int,
                        Some(Settled::Reference(old(self).order().len() as usize)),
                    )
                },
                Err(e) => {
                    &&& final(self).frames() == old(self).frames()
                    &&& final(self).order() == old(self).order()
                    &&& if old(self).ready() {
                        exists|outcomes: Seq<Outcome>|
                            #![auto]
                            covers(old(self).frames().last().project, outcomes)
                                && fails_to_generate(
                                e,
                                old(self).frames().last().project,
                                old(self).frames().last().location@,
                                found@,
                                outcomes,
                            )
                    } else {
                        e matches ClinkError::InternalConsistency(text) && text@
                            == nothing_to_generate()
                    }
                },
            },
    {
        let n = self.stack.len();
        if n == 0 {
            return Err(
                ClinkError::InternalConsistency("no project is waiting to be generated".to_owned()),
            );
        }
        let k = find_open_edge(
            &self.stack[n - 1].project.dependencies,
            self.stack[n - 1].settled.len(),
        );
        if k < self.stack[n - 1].project.dependencies.len() {
            return Err(
                ClinkError::InternalConsistency("no project is waiting to be generated".to_owned()),
            );
        }
        let outcomes = self.outcomes();
        let g = match generate_vcxproj(
            &self.stack[n - 1].project,
            self.stack[n - 1].location.as_str(),
            includes,
            found,
            &outcomes,
        ) {
            Ok(g) => g,
            Err(e) => {
                return Err(e);
            },
        };
        proof {
            lemma_only_external_edges_are_skipped(
                self.stack@.last().project.dependencies@,
                self.stack@.last().settled@.len() as int,
            );
        }
        let ghost stack_before = self.stack@;
        let ghost done_before = self.done@;
        let mut frame = self.stack.pop().unwrap();
        let ghost recorded = frame.settled@;
        let index = self.done.len();
        let edges = frame.project.dependencies.len();
        pad(&mut frame.settled, edges);
        proof {
            let now = frame.settled@;
            assert forall|j: int| 0 <= j < now.len() implies ((#[trigger] now[j]) is External
                <==> frame.project.dependencies@[j].external()) by {
                if j < recorded.len() {
                    assert(now[j] == recorded[j]);
                } else {
                    assert(frame.project.dependencies@[j].external());
                }
            }
            assert forall|j: int| 0 <= j < now.len() implies ((#[trigger] now[j]) matches Settled::Reference(
                i,
            ) ==> i < done_before.len() && done_before[i as int].location@
                == frame.project.dependencies@[j].path@) by {
                if j < recorded.len() {
                    assert(now[j] == recorded[j]);
                }
            }
        }
        self.done.push(
            Resolved {
                desc: g.desc.copy(),
                location: frame.location,
                project: frame.project,
                settled: frame.settled,
            },
        );
        proof {
            let stack = self.stack@;
            let done = self.done@;
            assert(done.drop_last() =~= done_before);
            assert(stack =~= stack_before.drop_last());
            assert(done.last().desc.name@ == stack_before.last().project.name@);
            assert forall|i: int| 0 <= i < done.len() implies {
                &&& settles(
                    (#[trigger] done[i]).project.dependencies@,
                    done[i].settled@,
                    done,
                    i,
                )
                &&& done[i].settled@.len() == done[i].project.dependencies@.len()
                &&& done[i].desc.name@ == done[i].project.name@
            } by {
                if i < done.len() - 1 {
                    assert(done[i] == done_before[i]);
                    assert(settles(
                        done_before[i].project.dependencies@,
                        done_before[i].settled@,
                        done_before,
                        i,
                    ));
                    assert forall|k: int| 0 <= k < done[i].settled@.len() implies ((
                    #[trigger] done[i].settled@[k]) matches Settled::Reference(at) ==> at < i && at
                        < done.len() && done[at as int].location@
                        == done[i].project.dependencies@[k].path@) by {
                        match done[i].settled@[k] {
                            Settled::Reference(at) => {
                                assert(done[at as int] == done_before[at as int]);
                            },
                            _ => {},
                        }
                    }
                } else {
                    assert forall|k: int| 0 <= k < done[i].settled@.len() implies ((
                    #[trigger] done[i].settled@[k]) matches Settled::Reference(at) ==> at < i && at
                        < done.len() && done[at as int].location@
                        == done[i].project.dependencies@[k].path@) by {
                        match done[i].settled@[k] {
                            Settled::Reference(at) => {
                                assert(done[at as int] == done_before[at as int]);
                            },
                            _ => {},
                        }
                    }
                }
            }
            assert forall|i: int, j: int| 0 <= i < j < done.len() implies (#[trigger] done[i]).desc.name@
                != (#[trigger] done[j]).desc.name@ by {
                assert(done[i] == done_before[i]);
                if j < done.len() - 1 {
                    assert(done[j] == done_before[j]);
                } else {
                    assert(stack_before[stack_before.len() - 1].project.name@
                        != done_before[i].desc.name@);
                }
            }
            assert forall|i: int, j: int| 0 <= i < stack.len() && 0 <= j < done.len() implies (
            #[trigger] stack[i]).project.name@ != (#[trigger] done[j]).desc.name@ by {
                assert(stack[i] == stack_before[i]);
                if j < done.len() - 1 {
                    assert(done[j] == done_before[j]);
                } else {
                    assert(stack_before[i].project.name@ != stack_before[stack_before.len()
                        - 1].project.name@);
                }
            }
            assert forall|i: int| 0 <= i < stack.len() implies settles(
                (#[trigger] stack[i]).project.dependencies@,
                stack[i].settled@,
                done,
                done.len() as int,
            ) by {
                assert(stack[i] == stack_before[i]);
                assert(settles(
                    stack_before[i].project.dependencies@,
                    stack_before[i].settled@,
                    done_before,
                    done_before.len() as int,
                ));
                assert forall|k: int| 0 <= k < stack[i].settled@.len() implies ((
                #[trigger] stack[i].settled@[k]) matches Settled::Reference(at) ==> at < done.len()
                    && done[at as int].location@ == stack[i].project.dependencies@[k].path@) by {
                    match stack[i].settled@[k] {
                        Settled::Reference(at) => {
                            assert(done[at as int] == done_before[at as int]);
                        },
                        _ => {},
                    }
                }
            }
            assert forall|i: int, j: int| 0 <= i && j == i + 1 && j < stack.len() implies waits(
                #[trigger] stack[i],
                #[trigger] stack[j],
            ) by {
                assert(stack[i] == stack_before[i]);
                assert(stack[j] == stack_before[j]);
                assert(waits(stack_before[i], stack_before[j]));
            }
            if stack.len() > 0 {
                assert(stack[0] == stack_before[0]);
                assert(stack[stack.len() - 1] == stack_before[stack.len() - 1]);
                assert(waits(stack_before[stack.len() - 1], stack_before[stack.len() as int]));
            }
            assert(self.consistent());
        }
        if self.stack.len() > 0 {
            let at = self.stack[self.stack.len() - 1].settled.len();
            self.advance_top(at, Some(Settled::Reference(index)));
        }
        proof {
            assert(self.done@.last().settled@.take(recorded.len() as int) =~= recorded);
            lemma_needed_after_completion(*old(self), *self);
        }
        Ok(g)
    }

    /// Copies of the descriptors of the generated projects, in the order
    /// of their generation.
    pub fn descriptors(&self) -> (projects: Vec<ProjDesc>)
        ensures
            projects@.len() == self.order().len(),
            forall|i: int|
                0 <= i < projects@.len() ==> same_desc(#[trigger] projects@[i], self.order()[i].desc),
    {
        let mut projects: Vec<ProjDesc> = Vec::new();
        let mut i: usize = 0;
        while i < self.done.len()
            invariant
                i <= self.order().len(),
                projects@.len() == i,
                forall|j: int|
                    0 <= j < i ==> same_desc(#[trigger] projects@[j], self.order()[j].desc),
            decreases self.order().len() - i,
        {
            projects.push(self.done[i].desc.copy());
            i += 1;
        }
        projects
    }
}

/// Records the dependencies up to `upto` as external.
fn pad(settled: &mut Vec<Settled>, upto: usize)
    requires
        old(settled)@.len() <= upto,
    ensures
        final(settled)@ == old(settled)@ + skipped(upto - old(settled)@.len()),
{
    assert(settled@ =~= old(settled)@ + skipped(0));
    while settled.len() < upto
        invariant
            old(settled)@.len() <= settled@.len() <= upto,
            settled@ == old(settled)@ + skipped(settled@.len() - old(settled)@.len()),
        decreases upto - settled@.len(),
    {
        settled.push(Settled::External);
        assert(settled@ =~= old(settled)@ + skipped(settled@.len() - old(settled)@.len()));
    }
}

/// Finds the first dependency at or after `from` that is not external.
pub(crate) fn find_open_edge(dependencies: &Vec<Dependency>, from: usize) -> (k: usize)
    requires
        from <= dependencies@.len(),
    ensures
        k == next_open_edge(dependencies@, from as int),
        from <= k <= dependencies@.len(),
{
    let mut k: usize = from;
    while k < dependencies.len() && dependencies[k].is_external()
        invariant
            from <= k <= dependencies@.len(),
            next_open_edge(dependencies@, from as int) == next_open_edge(dependencies@, k as int),
        decreases dependencies@.len() - k,
    {
        k += 1;
    }
    k
}

/// In every state of a resolution the order is dependency-first. Of every
/// generated project each dependency is settled: one that points at a
/// description file is external, and one that points at a project was
/// passed over or leads to a project that stands before it and lies where
/// the dependency points. So the order holds, with each project, every
/// project that it depends on and that was not passed over. No two
/// generated projects share a name, and once nothing is left to resolve
/// the root stands last.
pub proof fn lemma_dependencies_come_first(r: Resolver)
    requires
        r.wf(),
    ensures
        forall|i: int, k: int|
            0 <= i < r.order().len() && 0 <= k < r.order()[i].project.dependencies@.len() ==> {
                let edge = r.order()[i].project.dependencies@[k];
                let outcome = #[trigger] r.order()[i].settled@[k];
                &&& k < r.order()[i].settled@.len()
                &&& edge.external() <==> outcome is External
                &&& outcome matches Settled::Reference(at) ==> at < i && r.order()[at as int].location@
                    == edge.path@
            },
        forall|i: int, j: int|
            0 <= i < j < r.order().len() ==> (#[trigger] r.order()[i]).desc.name@ != (
            #[trigger] r.order()[j]).desc.name@,
        r.frames().len() == 0 ==> r.order().len() > 0 && r.order().last().desc.name@ == r.root(),
{
    assert forall|i: int, k: int|
        0 <= i < r.order().len() && 0 <= k < r.order()[i].project.dependencies@.len() implies {
        let edge = r.order()[i].project.dependencies@[k];
        let outcome = #[trigger] r.order()[i].settled@[k];
        &&& k < r.order()[i].settled@.len()
        &&& edge.external() <==> outcome is External
        &&& outcome matches Settled::Reference(at) ==> at < i && r.order()[at as int].location@
            == edge.path@
    } by {
        assert(settles(r.order()[i].project.dependencies@, r.order()[i].settled@, r.order(), i));
    }
}

/// A project that is still being resolved is on no account opened again:
/// the projects on the stack have different names, so the stack is never
/// deeper than there are names.
pub proof fn lemma_stack_names_differ(r: Resolver, i: int, j: int)
    requires
        r.wf(),
        0 <= i < r.frames().len(),
        0 <= j < r.frames().len(),
        r.frames()[i].project.name@ == r.frames()[j].project.name@,
    ensures
        i == j,
{
    if i < j {
        assert(r.frames()[i].project.name@ != r.frames()[j].project.name@);
    } else if j < i {
        assert(r.frames()[j].project.name@ != r.frames()[i].project.name@);
    }
}

/// How many dependencies of the projects being resolved are not settled
/// yet.
pub open spec fn unsettled(frames: Seq<Frame>) -> int
    decreases frames.len(),
{
    if frames.len() == 0 {
        0
    } else {
        unsettled(frames.drop_last()) + frames.last().project.dependencies@.len()
            - frames.last().settled@.len()
    }
}

impl Resolver {
    /// A bound on the steps that a resolution has left, where the projects
    /// it meets have no more than `names` different names and no more than
    /// `width` dependencies each: every name not yet met may still cost a
    /// project with all its dependencies, and every project being resolved
    /// costs its unsettled dependencies and its own generation.
    pub open spec fn fuel(self, names: int, width: int) -> int {
        (names - self.frames().len() - self.order().len()) * (width + 2) + unsettled(
            self.frames(),
        ) + self.frames().len()
    }
}

/// Moving the top frame on settles as many dependencies as it records.
pub proof fn lemma_advanced_settles(
    before: Seq<Frame>,
    after: Seq<Frame>,
    upto: int,
    outcome: Option<Settled>,
)
    requires
        advanced(before, after, upto, outcome),
        before.last().settled@.len() <= upto,
    ensures
        unsettled(after) == unsettled(before) - (upto - before.last().settled@.len()) - (
        if outcome is Some {
            1int
        } else {
            0int
        }),
{
    assert(skipped(upto - before.last().settled@.len()).len() == upto
        - before.last().settled@.len());
}

/// No project being resolved has more dependencies settled than it has.
pub proof fn lemma_unsettled_is_not_negative(r: Resolver, n: int)
    requires
        r.wf(),
        0 <= n <= r.frames().len(),
    ensures
        unsettled(r.frames().take(n)) >= 0,
    decreases n,
{
    if n > 0 {
        lemma_unsettled_is_not_negative(r, n - 1);
        assert(r.frames().take(n).drop_last() =~= r.frames().take(n - 1));
        assert(r.frames().take(n).last() == r.frames()[n - 1]);
        assert(settles(
            r.frames()[n - 1].project.dependencies@,
            r.frames()[n - 1].settled@,
            r.order(),
            r.order().len() as int,
        ));
    }
}

/// As long as no more than `names` names are met, fuel is left or the
/// resolution is at its end.
pub proof fn lemma_fuel_is_not_negative(r: Resolver, names: int, width: int)
    requires
        r.wf(),
        width >= 0,
        r.frames().len() + r.order().len() <= names,
    ensures
        r.fuel(names, width) >= 0,
        r.fuel(names, width) == 0 ==> r.frames().len() == 0,
{
    lemma_unsettled_is_not_negative(r, r.frames().len() as int);
    assert(r.frames().take(r.frames().len() as int) =~= r.frames());
    let left = names - r.frames().len() - r.order().len();
    assert(left * (width + 2) >= 0) by (nonlinear_arith)
        requires
            left >= 0,
            width >= 0,
    ;
}

/// Every project that `opened` accepts uses fuel: where the project has
/// no more than `width` dependencies, less fuel is left after the step than
/// before, whatever became of the project.
pub proof fn lemma_opened_uses_fuel(
    before: Resolver,
    after: Resolver,
    project: Project,
    names: int,
    width: int,
)
    requires
        before.wf(),
        project.dependencies@.len() <= width,
        after.order() == before.order(),
        match before.verdict(project) {
            Verdict::External => advanced(
                before.frames(),
                after.frames(),
                before.waiting_edge(),
                Some(Settled::PassedOver),
            ),
            Verdict::Known(i) => advanced(
                before.frames(),
                after.frames(),
                before.waiting_edge(),
                Some(Settled::Reference(i as usize)),
            ),
            Verdict::New => {
                &&& after.frames().len() == before.frames().len() + 1
                &&& advanced(
                    before.frames(),
                    after.frames().drop_last(),
                    before.waiting_edge(),
                    None,
                )
                &&& after.frames().last().project == project
                &&& after.frames().last().settled@.len() == 0
            },
            _ => false,
        },
    ensures
        after.fuel(names, width) < before.fuel(names, width),
{
    let top = before.frames().last();
    lemma_only_external_edges_are_skipped(top.project.dependencies@, top.settled@.len() as int);
    let k = before.waiting_edge();
    let left = names - before.frames().len() - before.order().len();
    match before.verdict(project) {
        Verdict::External => {
            lemma_advanced_settles(
                before.frames(),
                after.frames(),
                k,
                Some(Settled::PassedOver),
            );
        },
        Verdict::Known(i) => {
            lemma_advanced_settles(
                before.frames(),
                after.frames(),
                k,
                Some(Settled::Reference(i as usize)),
            );
        },
        Verdict::New => {
            lemma_advanced_settles(before.frames(), after.frames().drop_last(), k, None);
            assert((left - 1) * (width + 2) == left * (width + 2) - (width + 2))
                by (nonlinear_arith);
        },
        _ => {},
    }
}

/// Every project that `complete` generates uses fuel: less is left after
/// the step than before.
pub proof fn lemma_complete_uses_fuel(before: Resolver, after: Resolver, names: int, width: int)
    requires
        before.wf(),
        before.ready(),
        after.order().len() == before.order().len() + 1,
        before.frames().len() == 1 ==> after.frames().len() == 0,
        before.frames().len() > 1 ==> advanced(
            before.frames().drop_last(),
            after.frames(),
            before.frames()[before.frames().len() - 2].settled@.len() as int,
            Some(Settled::Reference(before.order().len() as usize)),
        ),
    ensures
        after.fuel(names, width) < before.fuel(names, width),
{
    let n = before.frames().len() as int;
    assert(settles(
        before.frames()[n - 1].project.dependencies@,
        before.frames()[n - 1].settled@,
        before.order(),
        before.order().len() as int,
    ));
    assert(unsettled(before.frames()) == unsettled(before.frames().drop_last())
        + before.frames()[n - 1].project.dependencies@.len() - before.frames()[n
        - 1].settled@.len());
    assert(after.frames().len() == n - 1);
    assert(names - after.frames().len() - after.order().len() == names - before.frames().len()
        - before.order().len());
    if n == 1 {
        assert(before.frames().drop_last().len() == 0);
        assert(unsettled(after.frames()) == 0);
        assert(unsettled(before.frames().drop_last()) == 0);
    } else {
        assert(before.frames().drop_last().last() == before.frames()[n - 2]);
        lemma_advanced_settles(
            before.frames().drop_last(),
            after.frames(),
            before.frames()[n - 2].settled@.len() as int,
            Some(Settled::Reference(before.order().len() as usize)),
        );
    }
}

/// The names of the projects being resolved, then those of the projects
/// generated.
pub open spec fn names_met(r: Resolver) -> Seq<Seq<char>> {
    Seq::new(r.frames().len(), |i: int| r.frames()[i].project.name@) + Seq::new(
        r.order().len(),
        |j: int| r.order()[j].desc.name@,
    )
}

/// A resolution meets no more names than there are: where every project
/// met bears a name of a finite set, the projects being resolved and the
/// projects generated are together no more than the names of the set. With
/// the two laws on fuel, a run over finitely many projects ends.
pub proof fn lemma_names_met_are_bounded(r: Resolver, universe: Set<Seq<char>>)
    requires
        r.wf(),
        universe.finite(),
        forall|i: int|
            0 <= i < r.frames().len() ==> universe.contains(
                (#[trigger] r.frames()[i]).project.name@,
            ),
        forall|j: int|
            0 <= j < r.order().len() ==> universe.contains((#[trigger] r.order()[j]).desc.name@),
    ensures
        r.frames().len() + r.order().len() <= universe.len(),
{
    let met = names_met(r);
    let n = r.frames().len() as int;
    assert forall|i: int, j: int| 0 <= i < met.len() && 0 <= j < met.len() && i != j implies met[i]
        != met[j] by {
        let a = if i < j {
            i
        } else {
            j
        };
        let b = if i < j {
            j
        } else {
            i
        };
        if b < n {
            assert(r.frames()[a].project.name@ != r.frames()[b].project.name@);
        } else if a >= n {
            assert(r.order()[a - n].desc.name@ != r.order()[b - n].desc.name@);
        } else {
            assert(r.frames()[a].project.name@ != r.order()[b - n].desc.name@);
        }
    }
    met.unique_seq_to_set();
    assert forall|s: Seq<char>| met.to_set().contains(s) implies universe.contains(s) by {
        let k = choose|k: int| 0 <= k < met.len() && met[k] == s;
        if k < n {
            assert(universe.contains(r.frames()[k].project.name@));
        } else {
            assert(universe.contains(r.order()[k - n].desc.name@));
        }
    }
    vstd::set_lib::lemma_len_subset(met.to_set(), universe);
}

/// Whether every frame of `before` is a frame of `after` that has
/// recorded what it had recorded, and possibly more.
pub open spec fn grows(before: Seq<Frame>, after: Seq<Frame>) -> bool {
    &&& before.len() <= after.len()
    &&& forall|i: int|
        0 <= i < before.len() ==> (#[trigger] before[i]).settled@.len()
            <= after[i].settled@.len() && after[i].settled@.take(
            before[i].settled@.len() as int,
        ) == before[i].settled@
}

/// Moving the top frame on keeps what the frames had recorded.
pub proof fn lemma_advanced_grows(
    before: Seq<Frame>,
    after: Seq<Frame>,
    upto: int,
    outcome: Option<Settled>,
)
    requires
        advanced(before, after, upto, outcome),
    ensures
        grows(before, after),
{
    assert forall|i: int| 0 <= i < before.len() implies (#[trigger] before[i]).settled@.len()
        <= after[i].settled@.len() && after[i].settled@.take(before[i].settled@.len() as int)
        == before[i].settled@ by {
        if i < before.len() - 1 {
            assert(before[i] == before.drop_last()[i]);
            assert(after[i] == after.drop_last()[i]);
            assert(after[i].settled@.take(before[i].settled@.len() as int) =~= before[i].settled@);
        } else {
            assert(after[i].settled@.take(before[i].settled@.len() as int) =~= before[i].settled@);
        }
    }
}

/// A generated project stays needed while the frames keep what they had
/// recorded and the order stays as it is.
pub proof fn lemma_needed_after_growth(before: Resolver, after: Resolver)
    requires
        before.wf(),
        before.frames().len() > 0,
        after.order() == before.order(),
        grows(before.frames(), after.frames()),
    ensures
        forall|at: int| 0 <= at < after.order().len() ==> #[trigger] after.needed(at),
{
    assert forall|at: int| 0 <= at < after.order().len() implies #[trigger] after.needed(at) by {
        assert(before.needed(at));
        if exists|i: int, k: int|
            0 <= i < before.frames().len() && 0 <= k < before.frames()[i].settled@.len()
                && #[trigger] before.frames()[i].settled@[k] == Settled::Reference(at as usize) {
            let (i, k) = choose|i: int, k: int|
                0 <= i < before.frames().len() && 0 <= k < before.frames()[i].settled@.len()
                    && #[trigger] before.frames()[i].settled@[k] == Settled::Reference(
                    at as usize,
                );
            assert(after.frames()[i].settled@.take(before.frames()[i].settled@.len() as int)[k]
                == before.frames()[i].settled@[k]);
            assert(after.frames()[i].settled@[k] == Settled::Reference(at as usize));
        }
    }
}

/// After a project is generated every generated project is needed: what
/// the frame had recorded is recorded of the generated project, and the
/// project that waited for it refers to it.
pub proof fn lemma_needed_after_completion(before: Resolver, after: Resolver)
    requires
        before.wf(),
        before.frames().len() > 0,
        after.order().len() == before.order().len() + 1,
        after.order().drop_last() == before.order(),
        before.frames().last().settled@.len() <= after.order().last().settled@.len(),
        after.order().last().settled@.take(before.frames().last().settled@.len() as int)
            == before.frames().last().settled@,
        before.frames().len() == 1 ==> after.frames().len() == 0,
        before.frames().len() > 1 ==> advanced(
            before.frames().drop_last(),
            after.frames(),
            before.frames()[before.frames().len() - 2].settled@.len() as int,
            Some(Settled::Reference(before.order().len() as usize)),
        ),
    ensures
        forall|at: int| 0 <= at < after.order().len() ==> #[trigger] after.needed(at),
{
    let n = before.frames().len() as int;
    let d = before.order().len() as int;
    if n > 1 {
        lemma_advanced_grows(
            before.frames().drop_last(),
            after.frames(),
            before.frames()[n - 2].settled@.len() as int,
            Some(Settled::Reference(d as usize)),
        );
    }
    assert forall|at: int| 0 <= at < after.order().len() implies #[trigger] after.needed(at) by {
        if at == d {
            if n > 1 {
                let parent = after.frames()[n - 2];
                assert(before.frames().drop_last().last() == before.frames()[n - 2]);
                let k = before.frames()[n - 2].settled@.len() as int;
                assert(skipped(0).len() == 0);
                assert(parent.settled@[k] == Settled::Reference(d as usize));
            }
        } else {
            assert(before.needed(at));
            if exists|i: int, k: int|
                0 <= i < n && 0 <= k < before.frames()[i].settled@.len()
                    && #[trigger] before.frames()[i].settled@[k] == Settled::Reference(
                    at as usize,
                ) {
                let (i, k) = choose|i: int, k: int|
                    0 <= i < n && 0 <= k < before.frames()[i].settled@.len()
                        && #[trigger] before.frames()[i].settled@[k] == Settled::Reference(
                        at as usize,
                    );
                if i == n - 1 {
                    assert(after.order().last().settled@.take(
                        before.frames().last().settled@.len() as int,
                    )[k] == before.frames()[i].settled@[k]);
                    assert(after.order()[d].settled@[k] == Settled::Reference(at as usize));
                } else {
                    assert(before.frames().drop_last()[i] == before.frames()[i]);
                    assert(after.frames()[i].settled@.take(
                        before.frames()[i].settled@.len() as int,
                    )[k] == before.frames()[i].settled@[k]);
                    assert(after.frames()[i].settled@[k] == Settled::Reference(at as usize));
                }
            } else {
                let (i, k) = choose|i: int, k: int|
                    at < i < before.order().len() && 0 <= k < before.order()[i].settled@.len()
                        && #[trigger] before.order()[i].settled@[k] == Settled::Reference(
                        at as usize,
                    );
                assert(after.order()[i] == after.order().drop_last()[i]);
                assert(after.order()[i].settled@[k] == Settled::Reference(at as usize));
            }
        }
    }
}

/// Once nothing is left to resolve, the order holds exactly what the root
/// needs: every project in it but the last is referred to by a project
/// that stands after it, and the last is the root.
pub proof fn lemma_order_holds_what_is_needed(r: Resolver)
    requires
        r.wf(),
        r.frames().len() == 0,
    ensures
        r.order().len() > 0,
        r.order().last().desc.name@ == r.root(),
        forall|at: int| 0 <= at < r.order().len() - 1 ==> #[trigger] r.referred_later(at),
{
    assert forall|at: int| 0 <= at < r.order().len() - 1 implies #[trigger] r.referred_later(
        at,
    ) by {
        assert(r.needed(at));
    }
}

} // verus!
