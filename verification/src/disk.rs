//! Questions and requests to the file system.
//!
//! The caller hands over three functions that work on the disk. A [`Disk`] calls
//! them and remembers every call with its answer, in order. A contract over that
//! memory tells which calls a function makes, and that it makes no others.
use vstd::prelude::*;

use crate::path;
use crate::path::FilePath;

verus! {

/// The result of one attempt to create a directory.
#[derive(Clone, Copy, Debug, PartialEq, Eq, Structural)]
pub enum CreateOutcome {
    /// The directory is new and belongs to the caller.
    Created,
    /// The location is in use.
    AlreadyExists,
    /// The directory cannot be created for another reason.
    Failed,
}

/// Says why no directory was created.
#[derive(Clone, Copy, Debug, PartialEq, Eq, Structural)]
pub enum CreateError {
    /// The folder of the candidates cannot be created.
    NoFolder,
    /// An attempt failed for a reason other than a location in use.
    Failed,
    /// Every candidate location is in use.
    NoFreeName,
}

/// One call to the file system and its answer.
pub enum DiskStep {
    /// Whether a location was in use.
    InUse(path::PathView, bool),
    /// Whether the folder that a location stands in exists now, after it was
    /// created where it was missing.
    MadeFolder(path::PathView, bool),
    /// The attempt to create a directory.
    Attempted(path::PathView, CreateOutcome),
}

/// The file system, with a memory of the calls.
pub struct Disk<E, M, C> {
    /// Reports whether a location is in use.
    in_use: E,
    /// Creates the folder that a location stands in.
    make_folder: M,
    /// Creates one new directory.
    create: C,
    /// The calls so far, in order.
    steps: Ghost<Seq<DiskStep>>,
}

/// Whether a function was called with a location and gave this answer.
pub open spec fn answered<A, F: Fn(&FilePath) -> A>(
    question: F,
    place: path::PathView,
    answer: A,
) -> bool {
    exists|asked: FilePath|
        asked@ == place && #[trigger] call_ensures(question, (&asked,), answer)
}

impl<
    E: Fn(&FilePath) -> bool,
    M: Fn(&FilePath) -> bool,
    C: Fn(&FilePath) -> CreateOutcome,
> Disk<E, M, C> {
    /// The calls that were made, in order.
    pub closed spec fn steps(self) -> Seq<DiskStep> {
        self.steps@
    }

    /// The functions that work on the disk.
    pub closed spec fn functions(self) -> (E, M, C) {
        (self.in_use, self.make_folder, self.create)
    }

    /// Whether a remembered answer is what the function behind it gave.
    pub open spec fn is_answer(self, step: DiskStep) -> bool {
        match step {
            DiskStep::InUse(place, answer) => answered(self.functions().0, place, answer),
            DiskStep::MadeFolder(place, answer) => answered(self.functions().1, place, answer),
            DiskStep::Attempted(place, answer) => answered(self.functions().2, place, answer),
        }
    }

    /// Whether the functions accept every location, and every remembered answer
    /// is what the function behind it gave.
    pub open spec fn wf(self) -> bool {
        &&& forall|place: &FilePath| call_requires(self.functions().0, (place,))
        &&& forall|place: &FilePath| call_requires(self.functions().1, (place,))
        &&& forall|place: &FilePath| call_requires(self.functions().2, (place,))
        &&& forall|i: int| 0 <= i < self.steps().len() ==> self.is_answer(#[trigger] self.steps()[i])
    }

    /// Whether exactly these calls were made since another moment.
    pub open spec fn did(self, before: Self, steps: Seq<DiskStep>) -> bool {
        &&& self.wf()
        &&& self.functions() == before.functions()
        &&& self.steps() == before.steps() + steps
    }

    /// The calls that were made since another moment.
    pub open spec fn since(self, before: Self) -> Seq<DiskStep> {
        self.steps().skip(before.steps().len() as int)
    }

    /// Whether the memory of another moment only grew.
    pub open spec fn continues(self, before: Self) -> bool {
        self.did(before, self.since(before))
    }

    /// One more true answer keeps the memory true.
    proof fn lemma_grown(self, before: Self, step: DiskStep)
        requires
            before.wf(),
            self.functions() == before.functions(),
            self.steps() == before.steps() + seq![step],
            self.is_answer(step),
        ensures
            self.wf(),
    {
        assert forall|i: int| 0 <= i < self.steps().len() implies self.is_answer(
            #[trigger] self.steps()[i],
        ) by {
            if i < before.steps().len() {
                assert(before.is_answer(before.steps()[i]));
            }
        }
    }

    /// Starts a memory for functions that work on the disk.
    pub fn new(in_use: E, make_folder: M, create: C) -> (disk: Self)
        requires
            forall|place: &FilePath| call_requires(in_use, (place,)),
            forall|place: &FilePath| call_requires(make_folder, (place,)),
            forall|place: &FilePath| call_requires(create, (place,)),
        ensures
            disk.wf(),
            disk.functions() == (in_use, make_folder, create),
            disk.steps() == Seq::<DiskStep>::empty(),
    {
        Disk { in_use, make_folder, create, steps: Ghost(Seq::empty()) }
    }

    /// Reports whether a location is in use.
    pub fn in_use(&mut self, place: &FilePath) -> (answer: bool)
        requires
            old(self).wf(),
        ensures
            final(self).did(*old(self), seq![DiskStep::InUse(place@, answer)]),
    {
        proof {
            assert(self.functions().0 == self.in_use);
            assert(call_requires(self.functions().0, (place,)));
        }
        let answer = (self.in_use)(place);
        let ghost before = *self;
        let ghost step = DiskStep::InUse(place@, answer);
        self.steps = Ghost(self.steps@ + seq![step]);
        proof {
            assert(answered(self.functions().0, place@, answer));
            self.lemma_grown(before, step);
        }
        answer
    }

    /// Creates the folder that a location stands in, and reports whether it
    /// exists now.
    pub fn make_folder(&mut self, place: &FilePath) -> (answer: bool)
        requires
            old(self).wf(),
        ensures
            final(self).did(*old(self), seq![DiskStep::MadeFolder(place@, answer)]),
    {
        proof {
            assert(self.functions().1 == self.make_folder);
            assert(call_requires(self.functions().1, (place,)));
        }
        let answer = (self.make_folder)(place);
        let ghost before = *self;
        let ghost step = DiskStep::MadeFolder(place@, answer);
        self.steps = Ghost(self.steps@ + seq![step]);
        proof {
            assert(answered(self.functions().1, place@, answer));
            self.lemma_grown(before, step);
        }
        answer
    }

    /// Tries to create one new directory.
    pub fn create(&mut self, place: &FilePath) -> (outcome: CreateOutcome)
        requires
            old(self).wf(),
        ensures
            final(self).did(*old(self), seq![DiskStep::Attempted(place@, outcome)]),
    {
        proof {
            assert(self.functions().2 == self.create);
            assert(call_requires(self.functions().2, (place,)));
        }
        let outcome = (self.create)(place);
        let ghost before = *self;
        let ghost step = DiskStep::Attempted(place@, outcome);
        self.steps = Ghost(self.steps@ + seq![step]);
        proof {
            assert(answered(self.functions().2, place@, outcome));
            self.lemma_grown(before, step);
        }
        outcome
    }
}

/// The calls of a search that found so many candidates in use: the folder of the
/// candidates exists, and each of the first candidates was tried once, in order.
pub open spec fn search_steps(candidate: spec_fn(nat) -> path::PathView, tried: nat) -> Seq<
    DiskStep,
> {
    seq![DiskStep::MadeFolder(candidate(1), true)] + Seq::new(
        tried,
        |i: int|
            DiskStep::Attempted(candidate((i + 1) as nat), CreateOutcome::AlreadyExists),
    )
}

/// Whether calls are those of a search for a free candidate with this result.
///
/// The candidates have the numbers from one up to, but not including, `end`.
/// The search ends at the first candidate that is not in use.
pub open spec fn is_search(
    steps: Seq<DiskStep>,
    candidate: spec_fn(nat) -> path::PathView,
    end: nat,
    result: Result<path::PathView, CreateError>,
) -> bool {
    let last = (steps.len() - 1) as nat;
    match result {
        Ok(directory) => {
            &&& 1 <= last < end
            &&& directory == candidate(last)
            &&& steps == search_steps(candidate, (last - 1) as nat).push(
                DiskStep::Attempted(candidate(last), CreateOutcome::Created),
            )
        },
        Err(CreateError::NoFolder) => steps == seq![DiskStep::MadeFolder(candidate(1), false)],
        Err(CreateError::Failed) => {
            &&& 1 <= last < end
            &&& steps == search_steps(candidate, (last - 1) as nat).push(
                DiskStep::Attempted(candidate(last), CreateOutcome::Failed),
            )
        },
        Err(CreateError::NoFreeName) => steps == search_steps(candidate, (end - 1) as nat),
    }
}

/// A search creates the directory that it returns and nothing else: every other
/// candidate that it touched was in use, or could not be created.
pub proof fn law_searches_create_only_their_result(
    steps: Seq<DiskStep>,
    candidate: spec_fn(nat) -> path::PathView,
    end: nat,
    result: Result<path::PathView, CreateError>,
)
    requires
        is_search(steps, candidate, end, result),
    ensures
        forall|i: int|
            0 <= i < steps.len() && (#[trigger] steps[i]) is Attempted
                && steps[i]->Attempted_1 == CreateOutcome::Created ==> result == Ok::<
                path::PathView,
                CreateError,
            >(steps[i]->Attempted_0) && i == steps.len() - 1,
{
}

/// The result with the value of its location.
pub open spec fn located<E>(result: Result<FilePath, E>) -> Result<path::PathView, E> {
    match result {
        Ok(place) => Ok(place@),
        Err(error) => Err(error),
    }
}

/// Creates the first candidate directory that is not in use.
pub(crate) fn claim_directory<
    E: Fn(&FilePath) -> bool,
    M: Fn(&FilePath) -> bool,
    C: Fn(&FilePath) -> CreateOutcome,
    N: Fn(u64) -> FilePath,
>(
    disk: &mut Disk<E, M, C>,
    end: u64,
    candidate: N,
    Ghost(place): Ghost<spec_fn(nat) -> path::PathView>,
) -> (result: Result<FilePath, CreateError>)
    requires
        old(disk).wf(),
        end >= 1,
        forall|number: u64| call_requires(candidate, (number,)),
        forall|number: u64, found: FilePath|
            call_ensures(candidate, (number,), found) ==> found@ == place(number as nat),
    ensures
        final(disk).continues(*old(disk)),
        is_search(
            final(disk).since(*old(disk)),
            place,
            end as nat,
            located(result),
        ),
{
    let ghost before = *disk;
    let first = candidate(1);
    let made = disk.make_folder(&first);
    if !made {
        proof {
            assert(disk.steps().skip(before.steps().len() as int) =~= seq![
                DiskStep::MadeFolder(place(1), false),
            ]);
        }
        return Err(CreateError::NoFolder);
    }
    let mut number: u64 = 1;
    proof {
        assert(search_steps(place, 0) =~= seq![DiskStep::MadeFolder(place(1), true)]);
    }
    while number < end
        invariant
            1 <= number <= end,
            before == *old(disk),
            disk.did(before, search_steps(place, (number - 1) as nat)),
            forall|number: u64| call_requires(candidate, (number,)),
            forall|number: u64, found: FilePath|
                call_ensures(candidate, (number,), found) ==> found@ == place(number as nat),
        decreases end - number,
    {
        let directory = candidate(number);
        let ghost so_far = disk.steps();
        let outcome = disk.create(&directory);
        proof {
            let tried = search_steps(place, (number - 1) as nat);
            let fresh = disk.steps().skip(before.steps().len() as int);
            assert(fresh =~= tried.push(DiskStep::Attempted(place(number as nat), outcome)));
            assert(disk.steps() =~= before.steps() + fresh);
        }
        match outcome {
            CreateOutcome::Created => {
                return Ok(directory);
            },
            CreateOutcome::AlreadyExists => {},
            CreateOutcome::Failed => {
                return Err(CreateError::Failed);
            },
        }
        proof {
            assert(disk.steps() =~= before.steps() + search_steps(place, number as nat));
        }
        number += 1;
    }
    proof {
        assert(disk.steps().skip(before.steps().len() as int) =~= search_steps(
            place,
            (end - 1) as nat,
        ));
    }
    Err(CreateError::NoFreeName)
}

} // verus!
