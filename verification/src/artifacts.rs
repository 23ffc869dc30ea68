//! Which artifacts of the project a campaign fuzzes.

use vstd::prelude::*;

use crate::abi::{function_models, texts, Abi, AbiView, StateMutability};
use crate::executor::{error_of, InvariantExecutor, ProjectView, SelectionError, SelectionErrorView};
use crate::filters::{clone_selectors, contains_text, ArtifactFilters, ArtifactFiltersView};
use crate::fixed::Selector;
use crate::targets::{known_prefix, known_prefix_is_the_longest};

verus! {

/// An artifact that the test contract names, with the selectors it names, and where the project
/// has it: its place among the contracts of the project, nowhere, or why it could not be searched
/// for.
pub struct ArtifactChoice {
    pub artifact: String,
    pub selectors: Vec<Selector>,
    pub found: Result<Option<usize>, String>,
}

impl ArtifactChoice {
    /// The place that was found, if one was, is a place in a project of `contracts` contracts.
    pub open spec fn in_range(self, contracts: nat) -> bool {
        self.found matches Ok(Some(place)) ==> place < contracts
    }
}

/// All places that were found are places in a project of `contracts` contracts.
pub open spec fn choices_in_range(choices: Seq<ArtifactChoice>, contracts: nat) -> bool {
    forall|i: int| 0 <= i < choices.len() ==> (#[trigger] choices[i]).in_range(contracts)
}

/// The identifier of a chosen artifact. The artifact is in the project and has a function for each
/// of the selectors.
pub open spec fn validated(project: Seq<ProjectView>, choice: ArtifactChoice) -> Result<Seq<char>, SelectionErrorView> {
    match choice.found {
        Err(reason) => Err(SelectionErrorView::Lookup(reason@)),
        Ok(None) => Err(SelectionErrorView::NotFound(choice.artifact@)),
        Ok(Some(place)) => {
            let contract = project[place as int];
            let known = known_prefix(contract.abi, choice.selectors@);
            if known < choice.selectors@.len() {
                Err(
                    SelectionErrorView::NoSelector {
                        artifact: choice.artifact@,
                        selector: choice.selectors@[known as int],
                    },
                )
            } else {
                Ok(contract.identifier)
            }
        },
    }
}

/// No function of the interface may change state.
pub open spec fn is_immutable(abi: AbiView) -> bool {
    forall|i: int| 0 <= i < abi.all_functions().len() ==> !(#[trigger] abi.all_functions()[i]).state_mutability.changes_state()
}

impl ArtifactFiltersView {
    /// The filters with `selectors` of the artifact targeted, too.
    pub open spec fn target_selectors(self, identifier: Seq<char>, selectors: Seq<Selector>) -> ArtifactFiltersView {
        ArtifactFiltersView {
            targeted: self.targeted.insert(
                identifier,
                if self.targeted.dom().contains(identifier) {
                    self.targeted[identifier] + selectors
                } else {
                    selectors
                },
            ),
            ..self
        }
    }

    /// The filters with the artifact excluded.
    pub open spec fn exclude(self, identifier: Seq<char>) -> ArtifactFiltersView {
        if self.excluded.contains(identifier) {
            self
        } else {
            ArtifactFiltersView { excluded: self.excluded.push(identifier), ..self }
        }
    }

    /// The filters with the artifact targeted, unless it is targeted already or excluded.
    pub open spec fn target(self, identifier: Seq<char>) -> ArtifactFiltersView {
        if self.targeted.dom().contains(identifier) || self.excluded.contains(identifier) {
            self
        } else {
            ArtifactFiltersView { targeted: self.targeted.insert(identifier, Seq::empty()), ..self }
        }
    }
}

/// What is done with a chosen artifact.
#[derive(Clone, Copy, Debug, PartialEq, Eq, Structural)]
pub enum ChoiceKind {
    TargetSelectors,
    Exclude,
    Target,
}

/// The filters after one choice.
pub open spec fn with_choice(
    filters: ArtifactFiltersView,
    kind: ChoiceKind,
    identifier: Seq<char>,
    selectors: Seq<Selector>,
) -> ArtifactFiltersView {
    match kind {
        ChoiceKind::TargetSelectors => filters.target_selectors(identifier, selectors),
        ChoiceKind::Exclude => filters.exclude(identifier),
        ChoiceKind::Target => filters.target(identifier),
    }
}

/// The filters after the first `n` choices, up to the first that is not valid.
pub open spec fn with_choices(
    project: Seq<ProjectView>,
    filters: ArtifactFiltersView,
    kind: ChoiceKind,
    choices: Seq<ArtifactChoice>,
    n: nat,
) -> (ArtifactFiltersView, Option<SelectionErrorView>)
    decreases n,
{
    if n == 0 {
        (filters, None)
    } else {
        let (before, error) = with_choices(project, filters, kind, choices, (n - 1) as nat);
        if error is Some {
            (before, error)
        } else {
            match validated(project, choices[n - 1]) {
                Ok(identifier) => (with_choice(before, kind, identifier, choices[n - 1].selectors@), None),
                Err(error) => (before, Some(error)),
            }
        }
    }
}

/// The filters with every artifact excluded, of the first `n` of the project, that has no function
/// that may change state.
pub open spec fn with_immutable_excluded(
    project: Seq<ProjectView>,
    filters: ArtifactFiltersView,
    n: nat,
) -> ArtifactFiltersView
    decreases n,
{
    if n == 0 {
        filters
    } else {
        let before = with_immutable_excluded(project, filters, (n - 1) as nat);
        if is_immutable(project[n - 1].abi) {
            before.exclude(project[n - 1].identifier)
        } else {
            before
        }
    }
}

/// The artifacts that the test contract names.
pub struct ArtifactAnswers {
    /// `targetArtifactSelectors()`.
    pub targeted_selectors: Vec<ArtifactChoice>,
    /// `targetArtifacts()`.
    pub targeted: Vec<ArtifactChoice>,
    /// `excludeArtifacts()`.
    pub excluded: Vec<ArtifactChoice>,
}

impl ArtifactAnswers {
    /// All places that were found are places in a project of `contracts` contracts, and only
    /// `targetArtifactSelectors()` names selectors.
    pub open spec fn wf(self, contracts: nat) -> bool {
        &&& choices_in_range(self.targeted_selectors@, contracts)
        &&& choices_in_range(self.targeted@, contracts)
        &&& choices_in_range(self.excluded@, contracts)
        &&& forall|i: int| 0 <= i < self.targeted@.len() ==> (#[trigger] self.targeted@[i]).selectors@.len() == 0
        &&& forall|i: int| 0 <= i < self.excluded@.len() ==> (#[trigger] self.excluded@[i]).selectors@.len() == 0
    }
}

/// Whether all places that were found are places in a project of `contracts` contracts; and, where
/// `plain` is set, whether no selectors are named.
fn are_in_range(choices: &Vec<ArtifactChoice>, contracts: usize, plain: bool) -> (r: bool)
    ensures
        r == (choices_in_range(choices@, contracts as nat) && (plain ==> forall|i: int|
            0 <= i < choices@.len() ==> (#[trigger] choices@[i]).selectors@.len() == 0)),
{
    let mut i: usize = 0;
    while i < choices.len()
        invariant
            i <= choices@.len(),
            forall|j: int| 0 <= j < i ==> (#[trigger] choices@[j]).in_range(contracts as nat),
            plain ==> forall|j: int| 0 <= j < i ==> (#[trigger] choices@[j]).selectors@.len() == 0,
        decreases choices@.len() - i,
    {
        let choice = &choices[i];
        if let Ok(Some(place)) = &choice.found {
            if *place >= contracts {
                assert(!choices@[i as int].in_range(contracts as nat));
                return false;
            }
        }
        if plain && choice.selectors.len() != 0 {
            assert(choices@[i as int].selectors@.len() != 0);
            return false;
        }
        i += 1;
    }
    true
}

impl ArtifactAnswers {
    /// Whether all places that were found are places in a project of `contracts` contracts, and only
    /// `targetArtifactSelectors()` names selectors.
    pub fn is_valid(&self, contracts: usize) -> (r: bool)
        ensures
            r == self.wf(contracts as nat),
    {
        are_in_range(&self.targeted_selectors, contracts, false) && are_in_range(&self.targeted, contracts, true)
            && are_in_range(&self.excluded, contracts, true)
    }
}

/// The artifact filters that the test contract asks for, up to the first choice that is not valid:
/// first the artifacts with chosen selectors are targeted, then the excluded ones and those that
/// cannot change state are excluded, and last the targeted ones are targeted where nothing else
/// was asked for them.
pub open spec fn selected_artifacts(
    project: Seq<ProjectView>,
    filters: ArtifactFiltersView,
    answers: ArtifactAnswers,
) -> (ArtifactFiltersView, Option<SelectionErrorView>) {
    let (chosen, e1) = with_choices(
        project,
        filters,
        ChoiceKind::TargetSelectors,
        answers.targeted_selectors@,
        answers.targeted_selectors@.len(),
    );
    if e1 is Some {
        (chosen, e1)
    } else {
        let (excluded, e2) = with_choices(
            project,
            chosen,
            ChoiceKind::Exclude,
            answers.excluded@,
            answers.excluded@.len(),
        );
        if e2 is Some {
            (excluded, e2)
        } else {
            with_choices(
                project,
                with_immutable_excluded(project, excluded, project.len()),
                ChoiceKind::Target,
                answers.targeted@,
                answers.targeted@.len(),
            )
        }
    }
}

impl ArtifactFilters {
    /// Does with an artifact what was chosen.
    fn apply(&mut self, kind: ChoiceKind, identifier: String, selectors: &Vec<Selector>)
        requires
            old(self).wf(),
        ensures
            final(self).wf(),
            final(self)@ == with_choice(old(self)@, kind, identifier@, selectors@),
    {
        let ghost id = identifier@;
        assert(self@.targeted.dom() =~= self.targeted@.dom());
        match kind {
            ChoiceKind::TargetSelectors => {
                let mut all = match self.targeted.get(&identifier) {
                    Some(known) => clone_selectors(known),
                    None => Vec::new(),
                };
                let ghost before = all@;
                let mut added = clone_selectors(selectors);
                all.append(&mut added);
                assert(!self@.targeted.dom().contains(id) ==> all@ =~= selectors@);
                self.targeted.insert(identifier, all);
                assert(self@.targeted =~= old(self)@.targeted.insert(id, all@));
            },
            ChoiceKind::Exclude => {
                self.exclude(identifier);
            },
            ChoiceKind::Target => {
                if !self.targeted.contains_key(&identifier) && !contains_text(&self.excluded, identifier.as_str()) {
                    self.targeted.insert(identifier, Vec::new());
                    assert(self@.targeted =~= old(self)@.targeted.insert(id, Seq::empty()));
                }
            },
        }
    }

    /// Excludes an artifact.
    pub fn exclude(&mut self, identifier: String)
        requires
            old(self).wf(),
        ensures
            final(self).wf(),
            final(self)@ == old(self)@.exclude(identifier@),
    {
        let ghost before = self.excluded@;
        let ghost id = identifier@;
        if !contains_text(&self.excluded, identifier.as_str()) {
            self.excluded.push(identifier);
            assert(texts(self.excluded@) =~= texts(before).push(id));
        }
    }
}

/// Whether no function of the interface may change state.
pub fn cannot_change_state(abi: &Abi) -> (r: bool)
    requires
        abi.wf(),
    ensures
        r == is_immutable(abi@),
{
    let functions = abi.all_functions();
    let ghost models = abi@.all_functions();
    let mut i: usize = 0;
    while i < functions.len()
        invariant
            i <= functions@.len(),
            models == abi@.all_functions(),
            function_models(functions@) == models,
            forall|j: int| 0 <= j < i ==> !(#[trigger] models[j]).state_mutability.changes_state(),
        decreases functions@.len() - i,
    {
        assert(models[i as int] == functions@[i as int]@);
        if functions[i].state_mutability.is_state_changing() {
            assert(models[i as int].state_mutability.changes_state());
            return false;
        }
        i += 1;
    }
    assert(functions@.len() == models.len());
    true
}

impl InvariantExecutor {
    /// The identifier of a chosen artifact. The artifact is in the project and has a function for
    /// each of the selectors; otherwise that is an error.
    pub fn validate_selected_contract(&self, choice: &ArtifactChoice) -> (r: Result<String, SelectionError>)
        requires
            self.wf(),
            choice.in_range(self.project().len()),
        ensures
            match validated(self.project(), *choice) {
                Ok(identifier) => r matches Ok(s) && s@ == identifier,
                Err(error) => r matches Err(e) && e@ == error,
            },
    {
        match &choice.found {
            Err(reason) => Err(SelectionError::Lookup(reason.clone())),
            Ok(None) => Err(SelectionError::NotFound(choice.artifact.clone())),
            Ok(Some(place)) => {
                let contract = &self.project_contracts[*place];
                assert(contract.abi.wf());
                proof {
                    known_prefix_is_the_longest(contract.abi@, choice.selectors@);
                }
                let mut i: usize = 0;
                while i < choice.selectors.len()
                    invariant
                        i <= known_prefix(contract.abi@, choice.selectors@),
                        known_prefix(contract.abi@, choice.selectors@) <= choice.selectors@.len(),
                        contract.abi.wf(),
                        choice.found matches Ok(Some(p)) && contract@ == self.project()[p as int],
                        forall|j: int|
                            0 <= j < known_prefix(contract.abi@, choice.selectors@) ==> contract.abi@.has_selector(
                                #[trigger] choice.selectors@[j],
                            ),
                        known_prefix(contract.abi@, choice.selectors@) < choice.selectors@.len()
                            ==> !contract.abi@.has_selector(
                            choice.selectors@[known_prefix(contract.abi@, choice.selectors@) as int],
                        ),
                    decreases choice.selectors@.len() - i,
                {
                    let selector = choice.selectors[i];
                    assert(selector == choice.selectors@[i as int]);
                    if !contract.abi.has_selector(selector) {
                        return Err(SelectionError::NoSelector { artifact: choice.artifact.clone(), selector });
                    }
                    i += 1;
                }
                Ok(contract.identifier.clone())
            },
        }
    }

    /// Does with artifacts what was chosen, up to the first choice that is not valid.
    fn apply_choices(&mut self, kind: ChoiceKind, choices: &Vec<ArtifactChoice>) -> (r: Result<(), SelectionError>)
        requires
            old(self).wf(),
            choices_in_range(choices@, old(self).project().len()),
        ensures
            final(self).wf(),
            *final(self) == (InvariantExecutor { artifact_filters: final(self).artifact_filters, ..*old(self) }),
            (final(self).artifact_filters@, error_of(r)) == with_choices(
                old(self).project(),
                old(self).artifact_filters@,
                kind,
                choices@,
                choices@.len(),
            ),
    {
        let ghost project = self.project();
        let ghost filters = self.artifact_filters@;
        let mut i: usize = 0;
        while i < choices.len()
            invariant
                i <= choices@.len(),
                self.wf(),
                choices_in_range(choices@, project.len()),
                *self == (InvariantExecutor { artifact_filters: self.artifact_filters, ..*old(self) }),
                project == old(self).project(),
                filters == old(self).artifact_filters@,
                (self.artifact_filters@, None::<SelectionErrorView>) == with_choices(
                    project,
                    filters,
                    kind,
                    choices@,
                    i as nat,
                ),
            decreases choices@.len() - i,
        {
            let choice = &choices[i];
            assert(self.project() == project);
            match self.validate_selected_contract(choice) {
                Ok(identifier) => {
                    self.artifact_filters.apply(kind, identifier, &choice.selectors);
                },
                Err(error) => {
                    proof {
                        error_stays(project, filters, kind, choices@, (i + 1) as nat, choices@.len());
                    }
                    return Err(error);
                },
            }
            i += 1;
        }
        Ok(())
    }

    /// Takes the artifact filters from what the test contract names. Artifacts with chosen
    /// selectors come before excluded ones, and excluded ones before targeted ones. An artifact
    /// without functions that may change state is excluded.
    pub fn select_contract_artifacts(&mut self, answers: &ArtifactAnswers) -> (r: Result<(), SelectionError>)
        requires
            old(self).wf(),
            answers.wf(old(self).project().len()),
        ensures
            final(self).wf(),
            *final(self) == (InvariantExecutor { artifact_filters: final(self).artifact_filters, ..*old(self) }),
            (final(self).artifact_filters@, error_of(r)) == selected_artifacts(
                old(self).project(),
                old(self).artifact_filters@,
                *answers,
            ),
    {
        let chosen = self.apply_choices(ChoiceKind::TargetSelectors, &answers.targeted_selectors);
        if chosen.is_err() {
            return chosen;
        }
        let excluded = self.apply_choices(ChoiceKind::Exclude, &answers.excluded);
        if excluded.is_err() {
            return excluded;
        }
        let ghost filters = self.artifact_filters@;
        let ghost project = self.project();
        let mut i: usize = 0;
        while i < self.project_contracts.len()
            invariant
                i <= self.project_contracts@.len(),
                self.wf(),
                *self == (InvariantExecutor { artifact_filters: self.artifact_filters, ..*old(self) }),
                project == self.project(),
                self.artifact_filters@ == with_immutable_excluded(project, filters, i as nat),
            decreases self.project_contracts@.len() - i,
        {
            let contract = &self.project_contracts[i];
            assert(contract.abi.wf());
            assert(project[i as int] == contract@);
            if cannot_change_state(&contract.abi) {
                let identifier = contract.identifier.clone();
                self.artifact_filters.exclude(identifier);
            }
            i += 1;
        }
        self.apply_choices(ChoiceKind::Target, &answers.targeted)
    }
}

/// After an error no choice has an effect.
proof fn error_stays(
    project: Seq<ProjectView>,
    filters: ArtifactFiltersView,
    kind: ChoiceKind,
    choices: Seq<ArtifactChoice>,
    n: nat,
    m: nat,
)
    requires
        n <= m,
        with_choices(project, filters, kind, choices, n).1 is Some,
    ensures
        with_choices(project, filters, kind, choices, m) == with_choices(project, filters, kind, choices, n),
    decreases m,
{
    if n < m {
        error_stays(project, filters, kind, choices, n, (m - 1) as nat);
    }
}

/// Choices only add: what is targeted or excluded stays so. Only targeting choices touch what is
/// targeted, and only excluding ones what is excluded.
proof fn choices_only_add(
    project: Seq<ProjectView>,
    filters: ArtifactFiltersView,
    kind: ChoiceKind,
    choices: Seq<ArtifactChoice>,
    n: nat,
)
    ensures
        ({
            let after = with_choices(project, filters, kind, choices, n).0;
            &&& kind == ChoiceKind::Exclude ==> after.targeted == filters.targeted
            &&& kind != ChoiceKind::Exclude ==> after.excluded == filters.excluded
            &&& forall|id: Seq<char>| #[trigger] filters.excluded.contains(id) ==> after.excluded.contains(id)
            &&& forall|id: Seq<char>| #[trigger] filters.targeted.dom().contains(id) ==> after.targeted.dom().contains(id)
            &&& kind == ChoiceKind::Target ==> forall|id: Seq<char>| #[trigger]
                after.targeted.dom().contains(id) ==> filters.targeted.dom().contains(id) || !filters.excluded.contains(id)
            &&& kind == ChoiceKind::Target ==> forall|id: Seq<char>| #[trigger]
                filters.targeted.dom().contains(id) ==> after.targeted[id] == filters.targeted[id]
        }),
    decreases n,
{
    if n > 0 {
        choices_only_add(project, filters, kind, choices, (n - 1) as nat);
        let before = with_choices(project, filters, kind, choices, (n - 1) as nat).0;
        let after = with_choices(project, filters, kind, choices, n).0;
        if let Ok(identifier) = validated(project, choices[n - 1]) {
            assert forall|id: Seq<char>| #[trigger] before.excluded.contains(id) implies before.exclude(
                identifier,
            ).excluded.contains(id) by {
                let k = before.excluded.index_of(id);
                assert(before.exclude(identifier).excluded[k] == id);
            }
        }
    }
}

/// Excluding artifacts that cannot change state keeps what is excluded and what is targeted.
proof fn immutable_exclusion_only_adds(project: Seq<ProjectView>, filters: ArtifactFiltersView, n: nat)
    requires
        n <= project.len(),
    ensures
        ({
            let after = with_immutable_excluded(project, filters, n);
            &&& after.targeted == filters.targeted
            &&& forall|id: Seq<char>| #[trigger] filters.excluded.contains(id) ==> after.excluded.contains(id)
            &&& forall|i: int|
                0 <= i < n && is_immutable((#[trigger] project[i]).abi) ==> after.excluded.contains(project[i].identifier)
        }),
    decreases n,
{
    if n > 0 {
        immutable_exclusion_only_adds(project, filters, (n - 1) as nat);
        let before = with_immutable_excluded(project, filters, (n - 1) as nat);
        let after = with_immutable_excluded(project, filters, n);
        let id = project[n - 1].identifier;
        assert forall|other: Seq<char>| #[trigger] before.excluded.contains(other) implies before.exclude(
            id,
        ).excluded.contains(other) by {
            let k = before.excluded.index_of(other);
            assert(before.exclude(id).excluded[k] == other);
        }
        assert(before.exclude(id).excluded.contains(id)) by {
            if !before.excluded.contains(id) {
                assert(before.exclude(id).excluded[before.excluded.len() as int] == id);
            }
        }
    }
}

/// Where all choices are valid, each has had its effect.
proof fn choices_take_effect(
    project: Seq<ProjectView>,
    filters: ArtifactFiltersView,
    kind: ChoiceKind,
    choices: Seq<ArtifactChoice>,
    n: nat,
    i: int,
)
    requires
        0 <= i < n,
        with_choices(project, filters, kind, choices, n).1 is None,
    ensures
        validated(project, choices[i]) is Ok,
        ({
            let after = with_choices(project, filters, kind, choices, n).0;
            let id = validated(project, choices[i])->Ok_0;
            &&& kind == ChoiceKind::Exclude ==> after.excluded.contains(id)
            &&& kind == ChoiceKind::TargetSelectors ==> {
                &&& after.targeted.dom().contains(id)
                &&& forall|k: int|
                    0 <= k < choices[i].selectors@.len() ==> after.targeted[id].contains(
                        #[trigger] choices[i].selectors@[k],
                    )
            }
            &&& kind == ChoiceKind::Target ==> after.targeted.dom().contains(id) || after.excluded.contains(id)
        }),
    decreases n,
{
    let before = with_choices(project, filters, kind, choices, (n - 1) as nat).0;
    let after = with_choices(project, filters, kind, choices, n).0;
    assert(with_choices(project, filters, kind, choices, (n - 1) as nat).1 is None);
    assert(validated(project, choices[n - 1]) is Ok);
    let last = validated(project, choices[n - 1])->Ok_0;
    let id = validated(project, choices[i])->Ok_0;
    if i < n - 1 {
        choices_take_effect(project, filters, kind, choices, (n - 1) as nat, i);
        if kind == ChoiceKind::Exclude {
            let k = before.excluded.index_of(id);
            assert(after.excluded[k] == id);
        } else if kind == ChoiceKind::TargetSelectors {
            assert forall|k: int| 0 <= k < choices[i].selectors@.len() implies after.targeted[id].contains(
                #[trigger] choices[i].selectors@[k],
            ) by {
                let s = choices[i].selectors@[k];
                assert(before.targeted[id].contains(s));
                let j = before.targeted[id].index_of(s);
                assert(after.targeted[id][j] == s);
            }
        }
    } else {
        if kind == ChoiceKind::Exclude {
            if !before.excluded.contains(id) {
                assert(after.excluded[before.excluded.len() as int] == id);
            }
        } else if kind == ChoiceKind::TargetSelectors {
            let offset = if before.targeted.dom().contains(id) {
                before.targeted[id].len() as int
            } else {
                0
            };
            assert forall|k: int| 0 <= k < choices[i].selectors@.len() implies after.targeted[id].contains(
                #[trigger] choices[i].selectors@[k],
            ) by {
                assert(after.targeted[id][offset + k] == choices[i].selectors@[k]);
            }
        }
    }
}

/// Chosen selectors come before exclusion, and exclusion before targeting: where all choices are
/// valid, an artifact with chosen selectors is targeted with them even where it is excluded, an
/// excluded artifact stays excluded and is targeted only for its chosen selectors, an artifact
/// that cannot change state is excluded, and a targeted artifact that is not excluded is targeted.
pub proof fn artifact_priority(
    project: Seq<ProjectView>,
    answers: ArtifactAnswers,
    chosen: int,
    excluded: int,
    targeted: int,
    immutable: int,
)
    requires
        selected_artifacts(project, ArtifactFiltersView::none(), answers).1 is None,
    ensures
        ({
            let after = selected_artifacts(project, ArtifactFiltersView::none(), answers).0;
            &&& 0 <= chosen < answers.targeted_selectors@.len() ==> {
                &&& validated(project, answers.targeted_selectors@[chosen]) matches Ok(id)
                &&& after.targeted.dom().contains(id)
                &&& forall|k: int|
                    0 <= k < answers.targeted_selectors@[chosen].selectors@.len() ==> after.targeted[id].contains(
                        #[trigger] answers.targeted_selectors@[chosen].selectors@[k],
                    )
            }
            &&& 0 <= excluded < answers.excluded@.len() ==> {
                &&& validated(project, answers.excluded@[excluded]) matches Ok(id)
                &&& after.excluded.contains(id)
            }
            &&& 0 <= immutable < project.len() && is_immutable(project[immutable].abi) ==> after.excluded.contains(
                project[immutable].identifier,
            )
            &&& 0 <= targeted < answers.targeted@.len() ==> {
                &&& validated(project, answers.targeted@[targeted]) matches Ok(id)
                &&& after.targeted.dom().contains(id) || after.excluded.contains(id)
            }
            &&& forall|id: Seq<char>| #[trigger]
                after.targeted.dom().contains(id) && after.excluded.contains(id) ==> with_choices(
                    project,
                    ArtifactFiltersView::none(),
                    ChoiceKind::TargetSelectors,
                    answers.targeted_selectors@,
                    answers.targeted_selectors@.len(),
                ).0.targeted.dom().contains(id)
        }),
{
    let none = ArtifactFiltersView::none();
    let n1 = answers.targeted_selectors@.len();
    let n2 = answers.excluded@.len();
    let n3 = answers.targeted@.len();
    let f1 = with_choices(project, none, ChoiceKind::TargetSelectors, answers.targeted_selectors@, n1).0;
    let f2 = with_choices(project, f1, ChoiceKind::Exclude, answers.excluded@, n2).0;
    let f3 = with_immutable_excluded(project, f2, project.len());
    let f4 = with_choices(project, f3, ChoiceKind::Target, answers.targeted@, n3).0;
    choices_only_add(project, f1, ChoiceKind::Exclude, answers.excluded@, n2);
    immutable_exclusion_only_adds(project, f2, project.len());
    choices_only_add(project, f3, ChoiceKind::Target, answers.targeted@, n3);
    if 0 <= chosen < n1 {
        choices_take_effect(project, none, ChoiceKind::TargetSelectors, answers.targeted_selectors@, n1, chosen);
        let id = validated(project, answers.targeted_selectors@[chosen])->Ok_0;
        assert(f4.targeted[id] == f3.targeted[id]);
    }
    if 0 <= excluded < n2 {
        choices_take_effect(project, f1, ChoiceKind::Exclude, answers.excluded@, n2, excluded);
    }
    if 0 <= targeted < n3 {
        choices_take_effect(project, f3, ChoiceKind::Target, answers.targeted@, n3, targeted);
    }
}

/// A chosen artifact is valid exactly where the project has it and it has a function for each selector. It is
/// then known by the identifier of that contract; otherwise the error says what is missing: the first selector
/// without a function, the artifact itself, or why the project could not be searched.
pub proof fn choices_are_valid_where_the_project_has_them(project: Seq<ProjectView>, choice: ArtifactChoice, k: int)
    ensures
        choice.found matches Err(reason) ==> validated(project, choice) == Err::<Seq<char>, SelectionErrorView>(
            SelectionErrorView::Lookup(reason@),
        ),
        choice.found == Ok::<Option<usize>, String>(None) ==> validated(project, choice) == Err::<
            Seq<char>,
            SelectionErrorView,
        >(SelectionErrorView::NotFound(choice.artifact@)),
        choice.found matches Ok(Some(place)) ==> {
            let contract = project[place as int];
            let selectors = choice.selectors@;
            &&& (validated(project, choice) is Ok) == (forall|j: int|
                0 <= j < selectors.len() ==> contract.abi.has_selector(#[trigger] selectors[j]))
            &&& validated(project, choice) matches Ok(identifier) ==> identifier == contract.identifier
            &&& 0 <= k < selectors.len() && !contract.abi.has_selector(selectors[k]) && (forall|j: int|
                0 <= j < k ==> contract.abi.has_selector(#[trigger] selectors[j])) ==> validated(project, choice)
                == Err::<Seq<char>, SelectionErrorView>(
                SelectionErrorView::NoSelector { artifact: choice.artifact@, selector: selectors[k] },
            )
        },
{
    if let Ok(Some(place)) = choice.found {
        let abi = project[place as int].abi;
        known_prefix_is_the_longest(abi, choice.selectors@);
        let known = known_prefix(abi, choice.selectors@) as int;
        if known < choice.selectors@.len() {
            assert(!abi.has_selector(choice.selectors@[known]));
        }
    }
}

/// An interface is one that cannot change state exactly where all of its functions are pure or view.
pub proof fn immutable_interfaces_have_no_other_functions(abi: AbiView)
    ensures
        is_immutable(abi) <==> forall|i: int|
            0 <= i < abi.all_functions().len() ==> (#[trigger] abi.all_functions()[i]).state_mutability
                == StateMutability::Pure || abi.all_functions()[i].state_mutability
                == StateMutability::View,
{
}

/// What one choice does to an artifact, and that it does nothing to any other: chosen selectors stand behind
/// those chosen before, an excluded artifact is excluded once, and a targeted one is targeted without selectors
/// unless it is targeted or excluded already.
pub proof fn choices_do_what_they_say(
    filters: ArtifactFiltersView,
    identifier: Seq<char>,
    selectors: Seq<Selector>,
    other: Seq<char>,
)
    ensures
        ({
            let after = with_choice(filters, ChoiceKind::TargetSelectors, identifier, selectors);
            &&& after.excluded == filters.excluded
            &&& after.targeted.dom().contains(identifier)
            &&& filters.targeted.dom().contains(identifier) ==> after.targeted[identifier]
                == filters.targeted[identifier] + selectors
            &&& !filters.targeted.dom().contains(identifier) ==> after.targeted[identifier] == selectors
            &&& other != identifier ==> after.targeted.dom().contains(other) == filters.targeted.dom().contains(other)
                && after.targeted[other] == filters.targeted[other]
        }),
        ({
            let after = with_choice(filters, ChoiceKind::Exclude, identifier, selectors);
            &&& after.targeted == filters.targeted
            &&& after.excluded.contains(identifier)
            &&& filters.excluded.contains(identifier) ==> after.excluded == filters.excluded
            &&& !filters.excluded.contains(identifier) ==> after.excluded == filters.excluded + seq![identifier]
        }),
        ({
            let after = with_choice(filters, ChoiceKind::Target, identifier, selectors);
            let settled = filters.targeted.dom().contains(identifier) || filters.excluded.contains(identifier);
            &&& after.excluded == filters.excluded
            &&& settled ==> after == filters
            &&& !settled ==> after.targeted.dom().contains(identifier) && after.targeted[identifier].len() == 0
            &&& other != identifier ==> after.targeted.dom().contains(other) == filters.targeted.dom().contains(other)
                && after.targeted[other] == filters.targeted[other]
        }),
{
    let excluded = with_choice(filters, ChoiceKind::Exclude, identifier, selectors).excluded;
    if !filters.excluded.contains(identifier) {
        assert(excluded[filters.excluded.len() as int] == identifier);
        assert(excluded =~= filters.excluded + seq![identifier]);
    }
}

/// Choices add nothing but what they name: an artifact that becomes targeted or excluded, and a selector that
/// becomes chosen, is named by some choice.
proof fn choices_add_nothing_else(
    project: Seq<ProjectView>,
    filters: ArtifactFiltersView,
    kind: ChoiceKind,
    choices: Seq<ArtifactChoice>,
    n: nat,
    id: Seq<char>,
    selector: Selector,
)
    requires
        n <= choices.len(),
    ensures
        ({
            let after = with_choices(project, filters, kind, choices, n).0;
            &&& after.excluded.contains(id) && !filters.excluded.contains(id) ==> kind == ChoiceKind::Exclude
                && exists|i: int|
                0 <= i < n && validated(project, #[trigger] choices[i]) == Ok::<Seq<char>, SelectionErrorView>(id)
            &&& after.targeted.dom().contains(id) && !filters.targeted.dom().contains(id) ==> kind
                != ChoiceKind::Exclude && exists|i: int|
                0 <= i < n && validated(project, #[trigger] choices[i]) == Ok::<Seq<char>, SelectionErrorView>(id)
            &&& after.targeted.dom().contains(id) && after.targeted[id].contains(selector) ==> {
                ||| filters.targeted.dom().contains(id) && filters.targeted[id].contains(selector)
                ||| kind == ChoiceKind::TargetSelectors && exists|i: int|
                    0 <= i < n && validated(project, #[trigger] choices[i]) == Ok::<Seq<char>, SelectionErrorView>(id)
                        && choices[i].selectors@.contains(selector)
            }
        }),
    decreases n,
{
    if n > 0 {
        choices_add_nothing_else(project, filters, kind, choices, (n - 1) as nat, id, selector);
        let (before, error) = with_choices(project, filters, kind, choices, (n - 1) as nat);
        let after = with_choices(project, filters, kind, choices, n).0;
        if error is None {
            if let Ok(identifier) = validated(project, choices[n - 1]) {
                if after.excluded.contains(id) && !before.excluded.contains(id) {
                    let k = after.excluded.index_of(id);
                    if k < before.excluded.len() {
                        assert(before.excluded[k] == id);
                    }
                    assert(identifier == id);
                }
                if after.targeted.dom().contains(id) && after.targeted[id].contains(selector) && !(
                before.targeted.dom().contains(id) && before.targeted[id].contains(selector)) {
                    let k = after.targeted[id].index_of(selector);
                    if before.targeted.dom().contains(id) && k < before.targeted[id].len() {
                        assert(before.targeted[id][k] == selector);
                    }
                    assert(identifier == id);
                    if before.targeted.dom().contains(id) {
                        assert(choices[n - 1].selectors@[k - before.targeted[id].len()] == selector);
                    } else {
                        assert(choices[n - 1].selectors@[k] == selector);
                    }
                }
            }
        }
    }
}

/// Excluding artifacts that cannot change state excludes no other.
proof fn immutable_exclusion_adds_nothing_else(
    project: Seq<ProjectView>,
    filters: ArtifactFiltersView,
    n: nat,
    id: Seq<char>,
)
    requires
        n <= project.len(),
        with_immutable_excluded(project, filters, n).excluded.contains(id),
        !filters.excluded.contains(id),
    ensures
        exists|i: int| 0 <= i < n && (#[trigger] project[i]).identifier == id && is_immutable(project[i].abi),
    decreases n,
{
    if n > 0 {
        let before = with_immutable_excluded(project, filters, (n - 1) as nat);
        let after = with_immutable_excluded(project, filters, n);
        if before.excluded.contains(id) {
            immutable_exclusion_adds_nothing_else(project, filters, (n - 1) as nat, id);
        } else {
            let k = after.excluded.index_of(id);
            if k < before.excluded.len() {
                assert(before.excluded[k] == id);
            }
            assert(project[n - 1].identifier == id);
        }
    }
}

/// No artifact is targeted or excluded without a reason: an excluded artifact is one that `excludeArtifacts()`
/// names or one that cannot change state; a targeted one is named by `targetArtifactSelectors()` or
/// `targetArtifacts()`; and a chosen selector is one that `targetArtifactSelectors()` names for it.
pub proof fn no_other_artifacts_are_selected(
    project: Seq<ProjectView>,
    answers: ArtifactAnswers,
    id: Seq<char>,
    selector: Selector,
)
    ensures
        ({
            let after = selected_artifacts(project, ArtifactFiltersView::none(), answers).0;
            &&& after.excluded.contains(id) ==> {
                ||| exists|i: int|
                    0 <= i < answers.excluded@.len() && validated(project, #[trigger] answers.excluded@[i]) == Ok::<
                        Seq<char>,
                        SelectionErrorView,
                    >(id)
                ||| exists|i: int|
                    0 <= i < project.len() && (#[trigger] project[i]).identifier == id && is_immutable(project[i].abi)
            }
            &&& after.targeted.dom().contains(id) ==> {
                ||| exists|i: int|
                    0 <= i < answers.targeted_selectors@.len() && validated(
                        project,
                        #[trigger] answers.targeted_selectors@[i],
                    ) == Ok::<Seq<char>, SelectionErrorView>(id)
                ||| exists|i: int|
                    0 <= i < answers.targeted@.len() && validated(project, #[trigger] answers.targeted@[i]) == Ok::<
                        Seq<char>,
                        SelectionErrorView,
                    >(id)
            }
            &&& after.targeted.dom().contains(id) && after.targeted[id].contains(selector) ==> exists|i: int|
                0 <= i < answers.targeted_selectors@.len() && validated(
                    project,
                    #[trigger] answers.targeted_selectors@[i],
                ) == Ok::<Seq<char>, SelectionErrorView>(id) && answers.targeted_selectors@[i].selectors@.contains(
                    selector,
                )
        }),
{
    let none = ArtifactFiltersView::none();
    let n1 = answers.targeted_selectors@.len();
    let n2 = answers.excluded@.len();
    let n3 = answers.targeted@.len();
    let f1 = with_choices(project, none, ChoiceKind::TargetSelectors, answers.targeted_selectors@, n1).0;
    let f2 = with_choices(project, f1, ChoiceKind::Exclude, answers.excluded@, n2).0;
    let f3 = with_immutable_excluded(project, f2, project.len());
    choices_add_nothing_else(project, none, ChoiceKind::TargetSelectors, answers.targeted_selectors@, n1, id, selector);
    choices_add_nothing_else(project, f1, ChoiceKind::Exclude, answers.excluded@, n2, id, selector);
    choices_only_add(project, f1, ChoiceKind::Exclude, answers.excluded@, n2);
    immutable_exclusion_only_adds(project, f2, project.len());
    if f3.excluded.contains(id) && !f2.excluded.contains(id) {
        immutable_exclusion_adds_nothing_else(project, f2, project.len(), id);
    }
    choices_add_nothing_else(project, f3, ChoiceKind::Target, answers.targeted@, n3, id, selector);
}

} // verus!
