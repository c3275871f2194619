//! One gathering run against a realm, as a state machine: what to ask of the
//! directory next, given what it answered last.

use vstd::prelude::*;
use crate::error::{DirectoryFault, GatherError, Setting};
use crate::group::{
    Group, GroupView, RawGroup, all_complete, group_views, parse_listing, raw_views, typed_all,
};
use crate::members::{
    GroupMembers, MembersView, RawUser, all_named, answer_views, copy_groups, members_views,
    pair_up, paired,
};
use crate::registry::{Registry, merged};
use crate::resolver::{
    ResolvedGroup, ResolvedView, any_cyclic, flatten_all, resolve, resolved_views, selected, texts,
};
use crate::state::State;

verus! {

/// Where a run stands.
#[derive(Clone, Copy, Debug, PartialEq, Eq, Structural)]
pub enum Phase {
    /// No run is under way.
    Idle,
    /// The top-level groups of the realm were asked for.
    ListingGroups,
    /// The listing is in and valid; the trees of the root groups are to be
    /// resolved.
    ResolvingTree,
    /// The members of every resolved group were asked for.
    FetchingMembers,
    /// All members are in and valid; they are to be merged into the registry.
    Merging,
    /// The run met an error. Nothing leads out of this phase.
    Failed,
}

/// What happened since the run last asked for something.
#[derive(Debug, PartialEq, Eq)]
pub enum Event {
    /// The caller wants a run.
    Start,
    /// The directory answered the listing of top-level groups, or the call
    /// failed with the given report.
    GroupsListed(Result<Vec<RawGroup>, String>),
    /// What was asked for needed no outside work and is done.
    Continue,
    /// The directory answered every membership query, or one of the calls
    /// failed with the given report. The answers stand in the order of the
    /// groups that were asked for, one list of users for each group.
    MembersFetched(Result<Vec<Vec<RawUser>>, String>),
}

/// What the run asks for next.
#[derive(Debug, PartialEq, Eq)]
pub enum Request {
    /// List the top-level groups of this realm.
    ListGroups(String),
    /// Nothing from outside: go on.
    ResolveTree,
    /// Fetch the members of each of these groups.
    FetchMembers(Vec<ResolvedGroup>),
    /// Take exclusive hold of the registry and commit the run into it.
    Merge,
    /// Stop: the run has failed with this error.
    Fail(GatherError),
}

/// The mathematical value of a [`Request`].
pub ghost enum RequestView {
    ListGroups(Seq<char>),
    ResolveTree,
    FetchMembers(Seq<ResolvedView>),
    Merge,
    Fail(GatherError),
}

impl View for Request {
    type V = RequestView;

    open spec fn view(&self) -> RequestView {
        match self {
            Request::ListGroups(realm) => RequestView::ListGroups(realm@),
            Request::ResolveTree => RequestView::ResolveTree,
            Request::FetchMembers(groups) => RequestView::FetchMembers(resolved_views(groups@)),
            Request::Merge => RequestView::Merge,
            Request::Fail(error) => RequestView::Fail(*error),
        }
    }
}

/// What the caller wants done with what was gathered.
#[derive(Clone, Copy, Debug, PartialEq, Eq, Structural)]
pub enum Action {
    /// Show what would change.
    Plan,
    /// Make the changes.
    Apply,
}

/// A gathering run against one realm.
#[derive(Debug)]
pub struct Keycloak {
    realm: String,
    root_groups: Vec<String>,
    phase: Phase,
    listing: Vec<Group>,
    asked: Vec<ResolvedGroup>,
    fetched: Vec<GroupMembers>,
}

/// The mathematical value of a [`Keycloak`].
pub ghost struct KeycloakView {
    /// The realm whose groups are gathered.
    pub realm: Seq<char>,
    /// The names of the top-level groups to gather.
    pub root_groups: Seq<Seq<char>>,
    /// Where the run stands.
    pub phase: Phase,
    /// While resolving: the listing that the directory sent.
    pub listing: Seq<GroupView>,
    /// While fetching: the groups whose members were asked for.
    pub asked: Seq<ResolvedView>,
    /// While merging: each group with the members that the directory sent.
    pub fetched: Seq<MembersView>,
}

impl View for Keycloak {
    type V = KeycloakView;

    closed spec fn view(&self) -> KeycloakView {
        KeycloakView {
            realm: self.realm@,
            root_groups: texts(self.root_groups@),
            phase: self.phase,
            listing: group_views(self.listing@),
            asked: resolved_views(self.asked@),
            fetched: members_views(self.fetched@),
        }
    }
}

impl KeycloakView {
    /// The run in another phase, holding nothing of what the directory sent.
    pub open spec fn at(self, phase: Phase) -> KeycloakView {
        KeycloakView {
            phase,
            listing: Seq::empty(),
            asked: Seq::empty(),
            fetched: Seq::empty(),
            ..self
        }
    }

    /// The failed run, and the request to stop with `fault`.
    pub open spec fn failing(self, fault: DirectoryFault) -> (KeycloakView, RequestView) {
        (self.at(Phase::Failed), RequestView::Fail(GatherError::DirectoryError(fault)))
    }
}

/// The run after `event`, and what it asks for next.
///
/// A run goes from `Idle` through `ListingGroups`, `ResolvingTree`,
/// `FetchingMembers` and `Merging`; from each phase exactly one kind of event
/// leads on. A failed call, a record that lacks a field, a cycle among the
/// groups, answers that are not as many as the groups asked for, and an
/// event that the phase does not wait for all lead to `Failed`.
pub open spec fn step(run: KeycloakView, event: Event) -> (KeycloakView, RequestView) {
    match (run.phase, event) {
        (Phase::Idle, Event::Start) => (
            run.at(Phase::ListingGroups),
            RequestView::ListGroups(run.realm),
        ),
        (Phase::ListingGroups, Event::GroupsListed(Ok(raws))) => if all_complete(
            raw_views(raws@),
        ) {
            (
                KeycloakView {
                    listing: typed_all(raw_views(raws@)),
                    ..run.at(Phase::ResolvingTree)
                },
                RequestView::ResolveTree,
            )
        } else {
            run.failing(DirectoryFault::MissingField)
        },
        (Phase::ListingGroups, Event::GroupsListed(Err(report))) => run.failing(
            DirectoryFault::CallFailed(report),
        ),
        (Phase::ResolvingTree, Event::Continue) => if any_cyclic(
            selected(run.listing, run.root_groups),
        ) {
            run.failing(DirectoryFault::Cycle)
        } else {
            (
                KeycloakView {
                    asked: flatten_all(selected(run.listing, run.root_groups)),
                    ..run.at(Phase::FetchingMembers)
                },
                RequestView::FetchMembers(flatten_all(selected(run.listing, run.root_groups))),
            )
        },
        (Phase::FetchingMembers, Event::MembersFetched(Ok(answers))) => if answers@.len()
            != run.asked.len() {
            run.failing(DirectoryFault::Unexpected)
        } else if all_named(answer_views(answers@)) {
            (
                KeycloakView {
                    fetched: paired(run.asked, answer_views(answers@)),
                    ..run.at(Phase::Merging)
                },
                RequestView::Merge,
            )
        } else {
            run.failing(DirectoryFault::MissingField)
        },
        (Phase::FetchingMembers, Event::MembersFetched(Err(report))) => run.failing(
            DirectoryFault::CallFailed(report),
        ),
        _ => run.failing(DirectoryFault::Unexpected),
    }
}

/// The registry after a run in the state `run` was committed into it: with
/// the members merged if the run was waiting to merge, unchanged if not.
pub open spec fn committed(run: KeycloakView, reg: Registry) -> Registry {
    if run.phase == Phase::Merging {
        merged(reg, run.fetched)
    } else {
        reg
    }
}

impl Keycloak {
    /// A run that has not started, for the given realm and root groups.
    ///
    /// Both settings are required: without a realm the error names the
    /// realm, with a realm and without root groups it names the root groups.
    pub fn new(realm: Option<String>, root_groups: Option<Vec<String>>) -> (r: Result<
        Keycloak,
        GatherError,
    >)
        ensures
            match (realm, root_groups) {
                (Some(realm), Some(roots)) => r matches Ok(run) && run@ == (KeycloakView {
                    realm: realm@,
                    root_groups: texts(roots@),
                    phase: Phase::Idle,
                    listing: Seq::empty(),
                    asked: Seq::empty(),
                    fetched: Seq::empty(),
                }),
                (Some(_), None) => r matches Err(e) && e == GatherError::ConfigurationError(
                    Setting::RootGroups,
                ),
                (None, _) => r matches Err(e) && e == GatherError::ConfigurationError(
                    Setting::Realm,
                ),
            },
    {
        match realm {
            None => Err(GatherError::ConfigurationError(Setting::Realm)),
            Some(realm) => match root_groups {
                None => Err(GatherError::ConfigurationError(Setting::RootGroups)),
                Some(root_groups) => {
                    let run = Keycloak {
                        realm,
                        root_groups,
                        phase: Phase::Idle,
                        listing: Vec::new(),
                        asked: Vec::new(),
                        fetched: Vec::new(),
                    };
                    assert(run@.listing =~= Seq::empty());
                    assert(run@.asked =~= Seq::empty());
                    assert(run@.fetched =~= Seq::empty());
                    Ok(run)
                },
            },
        }
    }

    /// The realm whose groups are gathered.
    pub fn realm(&self) -> (realm: &String)
        ensures
            realm@ == self@.realm,
    {
        &self.realm
    }

    /// The names of the top-level groups to gather.
    pub fn root_groups(&self) -> (roots: &Vec<String>)
        ensures
            texts(roots@) == self@.root_groups,
    {
        &self.root_groups
    }

    /// Where the run stands.
    pub fn phase(&self) -> (phase: Phase)
        ensures
            phase == self@.phase,
    {
        self.phase
    }

    /// Puts the run into `phase` and drops what the directory sent.
    fn enter(&mut self, phase: Phase)
        ensures
            final(self)@ == old(self)@.at(phase),
    {
        self.phase = phase;
        self.listing = Vec::new();
        self.asked = Vec::new();
        self.fetched = Vec::new();
        assert(self@.listing =~= Seq::empty());
        assert(self@.asked =~= Seq::empty());
        assert(self@.fetched =~= Seq::empty());
    }

    /// Fails the run with `fault`.
    fn fail(&mut self, fault: DirectoryFault) -> (request: Request)
        ensures
            (final(self)@, request@) == old(self)@.failing(fault),
    {
        self.enter(Phase::Failed);
        Request::Fail(GatherError::DirectoryError(fault))
    }

    /// Takes the run one step on: `event` is what happened since the last
    /// request, the result is what the run asks for next.
    pub fn gather(&mut self, event: Event) -> (request: Request)
        ensures
            (final(self)@, request@) == step(old(self)@, event),
    {
        match self.phase {
            Phase::Idle => match event {
                Event::Start => {
                    self.enter(Phase::ListingGroups);
                    Request::ListGroups(self.realm.clone())
                },
                _ => self.fail(DirectoryFault::Unexpected),
            },
            Phase::ListingGroups => match event {
                Event::GroupsListed(Ok(raws)) => match parse_listing(&raws) {
                    Ok(groups) => {
                        self.enter(Phase::ResolvingTree);
                        self.listing = groups;
                        Request::ResolveTree
                    },
                    Err(_) => self.fail(DirectoryFault::MissingField),
                },
                Event::GroupsListed(Err(report)) => self.fail(DirectoryFault::CallFailed(report)),
                _ => self.fail(DirectoryFault::Unexpected),
            },
            Phase::ResolvingTree => match event {
                Event::Continue => match resolve(&self.listing, &self.root_groups) {
                    Ok(groups) => {
                        self.enter(Phase::FetchingMembers);
                        self.asked = copy_groups(&groups);
                        Request::FetchMembers(groups)
                    },
                    Err(_) => self.fail(DirectoryFault::Cycle),
                },
                _ => self.fail(DirectoryFault::Unexpected),
            },
            Phase::FetchingMembers => match event {
                Event::MembersFetched(Ok(answers)) => if answers.len() != self.asked.len() {
                    self.fail(DirectoryFault::Unexpected)
                } else {
                    match pair_up(&self.asked, &answers) {
                        Ok(pairs) => {
                            self.enter(Phase::Merging);
                            self.fetched = pairs;
                            Request::Merge
                        },
                        Err(_) => self.fail(DirectoryFault::MissingField),
                    }
                },
                Event::MembersFetched(Err(report)) => self.fail(
                    DirectoryFault::CallFailed(report),
                ),
                _ => self.fail(DirectoryFault::Unexpected),
            },
            Phase::Merging => self.fail(DirectoryFault::Unexpected),
            Phase::Failed => self.fail(DirectoryFault::Unexpected),
        }
    }

    /// Commits the run into the registry. The caller holds the registry
    /// exclusively for the length of this call.
    ///
    /// A run that is waiting to merge merges all its members at once and is
    /// over: it is `Idle` again. Any other run changes nothing in the
    /// registry, and fails.
    pub fn commit(&mut self, registry: &mut State) -> (r: Result<(), GatherError>)
        ensures
            final(registry)@ == committed(old(self)@, old(registry)@),
            old(self)@.phase == Phase::Merging ==> r is Ok && final(self)@ == old(self)@.at(
                Phase::Idle,
            ),
            old(self)@.phase != Phase::Merging ==> r == Err::<(), GatherError>(
                GatherError::MergeError,
            ) && final(self)@ == old(self)@.at(Phase::Failed),
    {
        match self.phase {
            Phase::Merging => {
                registry.merge(&self.fetched);
                self.enter(Phase::Idle);
                Ok(())
            },
            _ => {
                self.enter(Phase::Failed);
                Err(GatherError::MergeError)
            },
        }
    }

    /// Carries out `action`. Gathering writes nothing back to the directory,
    /// so there is nothing to do for any action: the call succeeds and the
    /// run stays as it is.
    pub fn run(&self, action: Action) -> (r: Result<(), GatherError>)
        ensures
            r == Ok::<(), GatherError>(()),
    {
        Ok(())
    }
}

/// The run after a series of events, each answered by one step.
pub open spec fn after_all(run: KeycloakView, events: Seq<Event>) -> KeycloakView
    decreases events.len(),
{
    if events.len() == 0 {
        run
    } else {
        step(after_all(run, events.drop_last()), events.last()).0
    }
}

/// A failed call fails the run, whatever the run was waiting for, and a
/// failed run leaves the registry as it is when it is committed.
pub proof fn lemma_failed_call_merges_nothing(run: KeycloakView, event: Event, reg: Registry)
    requires
        event matches Event::GroupsListed(Err(_)) || event matches Event::MembersFetched(Err(_)),
    ensures
        step(run, event).0.phase == Phase::Failed,
        step(run, event).1 is Fail,
        committed(step(run, event).0, reg) == reg,
{
}

/// A run asks to stop exactly when the step has failed it.
pub proof fn lemma_stops_when_failed(run: KeycloakView, event: Event)
    ensures
        step(run, event).1 is Fail <==> step(run, event).0.phase == Phase::Failed,
{
}

/// Nothing leads out of `Failed`.
pub proof fn lemma_failed_stays_failed(run: KeycloakView, events: Seq<Event>)
    requires
        run.phase == Phase::Failed,
    ensures
        after_all(run, events).phase == Phase::Failed,
    decreases events.len(),
{
    if events.len() > 0 {
        lemma_failed_stays_failed(run, events.drop_last());
    }
}

/// Fail-fast: once a step of a run has failed, whatever follows, committing
/// the run leaves the registry as it was. Nothing of a failed run is ever
/// merged.
pub proof fn lemma_fail_fast(run: KeycloakView, events: Seq<Event>, k: int, reg: Registry)
    requires
        0 <= k < events.len(),
        step(after_all(run, events.take(k)), events[k]).1 is Fail,
    ensures
        after_all(run, events).phase == Phase::Failed,
        committed(after_all(run, events), reg) == reg,
    decreases events.len(),
{
    if k == events.len() - 1 {
        assert(events.take(k) =~= events.drop_last());
    } else {
        assert(events.drop_last().take(k) =~= events.take(k));
        lemma_fail_fast(run, events.drop_last(), k, reg);
    }
}

/// A whole run: started when idle, answered with a valid listing whose root
/// trees hold no cycle, and then with one valid answer for each resolved
/// group, the run waits to merge, and committing it merges into the registry
/// each group reached from a configured root with the members of its answer.
pub proof fn lemma_whole_run(
    run: KeycloakView,
    listing: Vec<RawGroup>,
    answers: Vec<Vec<RawUser>>,
    reg: Registry,
)
    requires
        run.phase == Phase::Idle,
        all_complete(raw_views(listing@)),
        !any_cyclic(selected(typed_all(raw_views(listing@)), run.root_groups)),
        answers@.len() == flatten_all(
            selected(typed_all(raw_views(listing@)), run.root_groups),
        ).len(),
        all_named(answer_views(answers@)),
    ensures
        ({
            let events = seq![
                Event::Start,
                Event::GroupsListed(Ok(listing)),
                Event::Continue,
                Event::MembersFetched(Ok(answers)),
            ];
            let groups = flatten_all(selected(typed_all(raw_views(listing@)), run.root_groups));
            &&& after_all(run, events).phase == Phase::Merging
            &&& committed(after_all(run, events), reg) == merged(
                reg,
                paired(groups, answer_views(answers@)),
            )
        }),
{
    let events = seq![
        Event::Start,
        Event::GroupsListed(Ok(listing)),
        Event::Continue,
        Event::MembersFetched(Ok(answers)),
    ];
    reveal_with_fuel(after_all, 5);
    assert(events.drop_last() =~= seq![
        Event::Start,
        Event::GroupsListed(Ok(listing)),
        Event::Continue,
    ]);
    assert(events.drop_last().drop_last() =~= seq![
        Event::Start,
        Event::GroupsListed(Ok(listing)),
    ]);
    assert(events.drop_last().drop_last().drop_last() =~= seq![Event::Start]);
    assert(events.drop_last().drop_last().drop_last().drop_last() =~= Seq::<Event>::empty());
}

/// A run waits to merge only after every group it asked for was answered
/// and every answer was valid; what it then holds to merge is each group
/// asked for with the members of its answer.
pub proof fn lemma_merges_only_complete_answers(run: KeycloakView, event: Event)
    requires
        step(run, event).0.phase == Phase::Merging,
    ensures
        run.phase == Phase::FetchingMembers,
        event matches Event::MembersFetched(Ok(answers)) && answers@.len() == run.asked.len()
            && all_named(answer_views(answers@)) && step(run, event).0.fetched == paired(
            run.asked,
            answer_views(answers@),
        ),
{
}

} // verus!
