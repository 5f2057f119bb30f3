//! Each player's advancement progress, and the rules by which it changes.
use vstd::prelude::*;
use crate::string_map::StringMap;
use crate::text::{join, str_eq, str_starts_with};
use crate::update_advancements::{opt_view, Advancement};

verus! {

/// The separator between an advancement id and a criterion in a progress key.
pub const KEY_SEPARATOR: &'static str = ":";

/// The key under which a criterion's progress is kept: the advancement id,
/// a colon, then the criterion.
pub open spec fn criterion_key(advancement: Seq<char>, criterion: Seq<char>) -> Seq<char> {
    advancement + seq![':'] + criterion
}

/// What every progress key of an advancement begins with: its id and a colon.
pub open spec fn key_prefix(advancement: Seq<char>) -> Seq<char> {
    advancement + seq![':']
}

/// Makes the progress key of a criterion of an advancement.
pub fn make_criterion_key(advancement: &str, criterion: &str) -> (r: String)
    ensures
        r@ == criterion_key(advancement@, criterion@),
{
    let r = join(advancement, KEY_SEPARATOR);
    proof {
        reveal_strlit(":");
    }
    let mut r = r;
    r.append(criterion);
    r
}

/// Makes the common beginning of an advancement's progress keys.
pub fn make_key_prefix(advancement: &str) -> (r: String)
    ensures
        r@ == key_prefix(advancement@),
{
    proof {
        reveal_strlit(":");
    }
    join(advancement, KEY_SEPARATOR)
}

/// An advancement a player has completed, and the criterion that completed it.
#[derive(Debug)]
pub struct CompletedAdvancement {
    pub id: String,
    pub criterion: String,
}

/// A player's progress on one criterion.
#[derive(Debug)]
pub struct CriterionProgress {
    pub criterion_id: String,
    pub achieved: bool,
    /// When it was achieved, in milliseconds since the Unix epoch, if known.
    pub date: Option<i64>,
}

/// All that is recorded of one player's advancements.
#[derive(Debug)]
pub struct PlayerAdvancementState {
    pub completed: StringMap<CompletedAdvancement>,
    pub criteria: StringMap<CriterionProgress>,
    pub selected_tab: Option<String>,
}

/// What is recorded of a completed advancement.
#[verifier::ext_equal]
pub ghost struct CompletedRecord {
    pub id: Seq<char>,
    pub criterion: Seq<char>,
}

/// What is recorded of a player's progress on a criterion.
#[verifier::ext_equal]
pub ghost struct CriterionRecord {
    pub criterion_id: Seq<char>,
    pub achieved: bool,
    pub date: Option<i64>,
}

/// What is recorded of a player: completed advancements and criteria by key,
/// and the selected tab.
#[verifier::ext_equal]
pub ghost struct PlayerProgress {
    pub completed: Map<Seq<char>, CompletedRecord>,
    pub criteria: Map<Seq<char>, CriterionRecord>,
    pub selected_tab: Option<Seq<char>>,
}

impl View for CompletedAdvancement {
    type V = CompletedRecord;

    open spec fn view(&self) -> CompletedRecord {
        CompletedRecord { id: self.id@, criterion: self.criterion@ }
    }
}

impl View for CriterionProgress {
    type V = CriterionRecord;

    open spec fn view(&self) -> CriterionRecord {
        CriterionRecord { criterion_id: self.criterion_id@, achieved: self.achieved, date: self.date }
    }
}

impl View for PlayerAdvancementState {
    type V = PlayerProgress;

    open spec fn view(&self) -> PlayerProgress {
        PlayerProgress {
            completed: self.completed@.map_values(|c: CompletedAdvancement| c@),
            criteria: self.criteria@.map_values(|c: CriterionProgress| c@),
            selected_tab: opt_view(self.selected_tab),
        }
    }
}

/// A player of whom nothing is recorded yet.
pub open spec fn fresh_progress() -> PlayerProgress {
    PlayerProgress {
        completed: Map::empty(),
        criteria: Map::empty(),
        selected_tab: None,
    }
}

impl Clone for CompletedAdvancement {
    fn clone(&self) -> (r: Self)
        ensures
            r == *self,
    {
        CompletedAdvancement { id: self.id.clone(), criterion: self.criterion.clone() }
    }
}

impl Clone for CriterionProgress {
    fn clone(&self) -> (r: Self)
        ensures
            r == *self,
    {
        CriterionProgress {
            criterion_id: self.criterion_id.clone(),
            achieved: self.achieved,
            date: self.date,
        }
    }
}

impl Default for CompletedAdvancement {
    fn default() -> (r: Self)
        ensures
            r.id@ == Seq::<char>::empty(),
            r.criterion@ == Seq::<char>::empty(),
    {
        CompletedAdvancement { id: String::new(), criterion: String::new() }
    }
}

impl Default for CriterionProgress {
    fn default() -> (r: Self)
        ensures
            r.criterion_id@ == Seq::<char>::empty(),
            !r.achieved,
            r.date is None,
    {
        CriterionProgress { criterion_id: String::new(), achieved: false, date: None }
    }
}

/// Clones an optional string.
fn clone_optional_string(o: &Option<String>) -> (r: Option<String>)
    ensures
        r == *o,
{
    match o {
        Some(s) => Some(s.clone()),
        None => None,
    }
}

impl Clone for PlayerAdvancementState {
    fn clone(&self) -> (r: Self)
        ensures
            r@ == self@,
    {
        let completed = self.completed.clone();
        let criteria = self.criteria.clone();
        assert(completed@ =~= self.completed@);
        assert(criteria@ =~= self.criteria@);
        let r = PlayerAdvancementState {
            completed,
            criteria,
            selected_tab: clone_optional_string(&self.selected_tab),
        };
        assert(r@ =~= self@);
        r
    }
}

impl Default for PlayerAdvancementState {
    fn default() -> (r: Self)
        ensures
            r@ == fresh_progress(),
    {
        let r = PlayerAdvancementState {
            completed: StringMap::new(),
            criteria: StringMap::new(),
            selected_tab: None,
        };
        assert(r@ =~= fresh_progress());
        r
    }
}

/// Whether `i` is the first position of `advancements` whose id is `id`.
pub open spec fn first_with_id(advancements: Seq<Advancement>, id: Seq<char>, i: int) -> bool {
    &&& 0 <= i < advancements.len()
    &&& advancements[i].id@ == id
    &&& forall|j: int| 0 <= j < i ==> advancements[j].id@ != id
}

/// The definition of the advancement with the given id: the first one with that id.
pub open spec fn lookup_advancement(advancements: Seq<Advancement>, id: Seq<char>) -> Option<
    Advancement,
> {
    if exists|i: int| first_with_id(advancements, id, i) {
        Some(advancements[choose|i: int| first_with_id(advancements, id, i)])
    } else {
        None
    }
}

/// The built-in advancement definitions of the server, looked up by id.
pub struct VanillaAdvancements {
    pub advancements: Vec<Advancement>,
}

impl Default for VanillaAdvancements {
    fn default() -> (r: Self)
        ensures
            r.advancements@ == Seq::<Advancement>::empty(),
    {
        VanillaAdvancements { advancements: Vec::new() }
    }
}

impl VanillaAdvancements {
    /// The definition with the given id, if there is one.
    pub fn get(&self, id: &str) -> (r: Option<&Advancement>)
        ensures
            match r {
                Some(a) => lookup_advancement(self.advancements@, id@) == Some(*a),
                None => lookup_advancement(self.advancements@, id@) is None,
            },
    {
        let mut i: usize = 0;
        while i < self.advancements.len()
            invariant
                i <= self.advancements@.len(),
                forall|j: int| 0 <= j < i ==> self.advancements@[j].id@ != id@,
            decreases self.advancements@.len() - i,
        {
            if str_eq(self.advancements[i].id.as_str(), id) {
                proof {
                    let advs = self.advancements@;
                    assert(first_with_id(advs, id@, i as int));
                    let c = choose|c: int| first_with_id(advs, id@, c);
                    if c < i {
                        assert(advs[c].id@ != id@);
                    }
                    if c > i {
                        assert(advs[i as int].id@ != id@);
                    }
                }
                return Some(&self.advancements[i]);
            }
            i = i + 1;
        }
        None
    }

    /// Whether there is a definition with the given id.
    pub fn contains_key(&self, id: &str) -> (r: bool)
        ensures
            r == (lookup_advancement(self.advancements@, id@) is Some),
    {
        self.get(id).is_some()
    }
}

/// Whether the criterion under `key` is recorded and achieved.
pub open spec fn is_achieved(criteria: Map<Seq<char>, CriterionRecord>, key: Seq<char>) -> bool {
    criteria.contains_key(key) && criteria[key].achieved
}

/// Whether some criterion of the group, read as a criterion of `advancement`, is achieved.
pub open spec fn group_met(
    group: Seq<String>,
    criteria: Map<Seq<char>, CriterionRecord>,
    advancement: Seq<char>,
) -> bool {
    exists|c: int| 0 <= c < group.len() && is_achieved(criteria, criterion_key(advancement, group[c]@))
}

/// Whether every requirement group has an achieved criterion.
pub open spec fn requirements_met(
    requirements: Seq<Vec<String>>,
    criteria: Map<Seq<char>, CriterionRecord>,
    advancement: Seq<char>,
) -> bool {
    forall|g: int|
        0 <= g < requirements.len() ==> group_met(#[trigger] requirements[g]@, criteria, advancement)
}

/// Whether some criterion of `advancement` is recorded at all.
pub open spec fn has_criteria_of(criteria: Map<Seq<char>, CriterionRecord>, advancement: Seq<char>) -> bool {
    exists|k: Seq<char>| criteria.contains_key(k) && key_prefix(advancement).is_prefix_of(k)
}

/// Whether every recorded criterion of `advancement` is achieved.
pub open spec fn all_criteria_of_achieved(
    criteria: Map<Seq<char>, CriterionRecord>,
    advancement: Seq<char>,
) -> bool {
    forall|k: Seq<char>|
        #[trigger] criteria.contains_key(k) && key_prefix(advancement).is_prefix_of(k)
            ==> criteria[k].achieved
}

/// Whether `advancement` is complete: when it is defined, every one of its requirement
/// groups has an achieved criterion; otherwise, it has recorded criteria and all of
/// them are achieved.
pub open spec fn advancement_complete(
    definitions: Seq<Advancement>,
    criteria: Map<Seq<char>, CriterionRecord>,
    advancement: Seq<char>,
) -> bool {
    match lookup_advancement(definitions, advancement) {
        Some(def) => requirements_met(def.requirements@, criteria, advancement),
        None => has_criteria_of(criteria, advancement) && all_criteria_of_achieved(criteria, advancement),
    }
}

/// A player's progress after recording a criterion under `key`.
pub open spec fn with_criterion(
    before: PlayerProgress,
    key: Seq<char>,
    criterion: Seq<char>,
    now: Option<i64>,
) -> PlayerProgress {
    PlayerProgress {
        completed: before.completed,
        criteria: before.criteria.insert(
            key,
            CriterionRecord { criterion_id: criterion, achieved: true, date: now },
        ),
        selected_tab: before.selected_tab,
    }
}

/// The players after starting to record `player`: a fresh record, unless already known.
pub open spec fn init_player_spec(players: Map<Seq<char>, PlayerProgress>, player: Seq<char>) -> Map<
    Seq<char>,
    PlayerProgress,
> {
    if players.contains_key(player) {
        players
    } else {
        players.insert(player, fresh_progress())
    }
}

/// Granting a criterion: the players afterwards, whether the criterion was recorded,
/// and whether the advancement is then complete. Nothing changes when the player is
/// unknown or the criterion is already recorded.
pub open spec fn grant_criterion_spec(
    players: Map<Seq<char>, PlayerProgress>,
    definitions: Seq<Advancement>,
    player: Seq<char>,
    advancement: Seq<char>,
    criterion: Seq<char>,
    now: Option<i64>,
) -> (Map<Seq<char>, PlayerProgress>, (bool, bool)) {
    let key = criterion_key(advancement, criterion);
    if players.contains_key(player) && !players[player].criteria.contains_key(key) {
        let after = with_criterion(players[player], key, criterion, now);
        (players.insert(player, after), (true, advancement_complete(definitions, after.criteria, advancement)))
    } else {
        (players, (false, false))
    }
}

/// Completing an advancement: the players afterwards, and whether it was recorded.
/// Nothing changes when the player is unknown or the advancement is already completed.
pub open spec fn complete_advancement_spec(
    players: Map<Seq<char>, PlayerProgress>,
    player: Seq<char>,
    advancement: Seq<char>,
    criterion: Seq<char>,
) -> (Map<Seq<char>, PlayerProgress>, bool) {
    if players.contains_key(player) && !players[player].completed.contains_key(advancement) {
        let before = players[player];
        let after = PlayerProgress {
            completed: before.completed.insert(
                advancement,
                CompletedRecord { id: advancement, criterion },
            ),
            criteria: before.criteria,
            selected_tab: before.selected_tab,
        };
        (players.insert(player, after), true)
    } else {
        (players, false)
    }
}

/// The players after setting the selected tab of `player`, if the player is known.
pub open spec fn set_selected_tab_spec(
    players: Map<Seq<char>, PlayerProgress>,
    player: Seq<char>,
    tab: Option<Seq<char>>,
) -> Map<Seq<char>, PlayerProgress> {
    if players.contains_key(player) {
        let before = players[player];
        players.insert(
            player,
            PlayerProgress {
                completed: before.completed,
                criteria: before.criteria,
                selected_tab: tab,
            },
        )
    } else {
        players
    }
}

/// A grant as seen in contracts: the advancement id and the criterion.
pub open spec fn grant_view(g: (String, String)) -> (Seq<char>, Seq<char>) {
    (g.0@, g.1@)
}

/// A list of grants as seen in contracts.
pub open spec fn grants_view(grants: Seq<(String, String)>) -> Seq<(Seq<char>, Seq<char>)> {
    grants.map_values(|g: (String, String)| grant_view(g))
}

/// The players after granting each of `grants`, in order, to `player` at time `now`.
pub open spec fn grant_each_spec(
    players: Map<Seq<char>, PlayerProgress>,
    definitions: Seq<Advancement>,
    player: Seq<char>,
    grants: Seq<(Seq<char>, Seq<char>)>,
    now: Option<i64>,
) -> Map<Seq<char>, PlayerProgress>
    decreases grants.len(),
{
    if grants.len() == 0 {
        players
    } else {
        grant_criterion_spec(
            grant_each_spec(players, definitions, player, grants.drop_last(), now),
            definitions,
            player,
            grants.last().0,
            grants.last().1,
            now,
        ).0
    }
}

/// Keeps every player's advancement progress, by player id.
pub struct AdvancementManager {
    advancements: StringMap<PlayerAdvancementState>,
    pub vanilla: VanillaAdvancements,
}

impl View for AdvancementManager {
    type V = Map<Seq<char>, PlayerProgress>;

    /// The recorded progress of each player, by player id.
    closed spec fn view(&self) -> Map<Seq<char>, PlayerProgress> {
        self.advancements@.map_values(|s: PlayerAdvancementState| s@)
    }
}

impl Default for AdvancementManager {
    fn default() -> (r: Self)
        ensures
            r@ == Map::<Seq<char>, PlayerProgress>::empty(),
            r.definitions() == Seq::<Advancement>::empty(),
    {
        let r = AdvancementManager {
            advancements: StringMap::new(),
            vanilla: VanillaAdvancements::default(),
        };
        assert(r@ =~= Map::<Seq<char>, PlayerProgress>::empty());
        r
    }
}

impl AdvancementManager {
    /// The advancement definitions the manager goes by.
    pub closed spec fn definitions(&self) -> Seq<Advancement> {
        self.vanilla.advancements@
    }

    /// A manager with no players, using the given advancement definitions.
    pub fn new(vanilla: VanillaAdvancements) -> (r: Self)
        ensures
            r@ == Map::<Seq<char>, PlayerProgress>::empty(),
            r.definitions() == vanilla.advancements@,
    {
        let r = AdvancementManager { advancements: StringMap::new(), vanilla };
        assert(r@ =~= Map::<Seq<char>, PlayerProgress>::empty());
        r
    }

    /// The advancement definitions the manager goes by.
    pub fn vanilla_advancements(&self) -> (r: &VanillaAdvancements)
        ensures
            r.advancements@ == self.definitions(),
    {
        &self.vanilla
    }

    /// Grants each of `grants` (advancement id, criterion) to the player, in order,
    /// all at time `now`.
    pub fn apply_grants(&mut self, player_id: &str, grants: &[(String, String)], now: Option<i64>)
        ensures
            final(self)@ == grant_each_spec(
                old(self)@,
                old(self).definitions(),
                player_id@,
                grants_view(grants@),
                now,
            ),
            final(self).definitions() == old(self).definitions(),
    {
        let ghost g = grants_view(grants@);
        let mut i: usize = 0;
        while i < grants.len()
            invariant
                i <= grants@.len(),
                g == grants_view(grants@),
                self.definitions() == old(self).definitions(),
                self@ == grant_each_spec(
                    old(self)@,
                    old(self).definitions(),
                    player_id@,
                    g.take(i as int),
                    now,
                ),
            decreases grants@.len() - i,
        {
            let (advancement_id, criterion_id) = &grants[i];
            self.grant_criterion(player_id, advancement_id.as_str(), criterion_id.as_str(), now);
            assert(g.take(i as int + 1).drop_last() =~= g.take(i as int));
            i = i + 1;
        }
        assert(g.take(grants@.len() as int) =~= g);
    }

    /// A copy of the player's state, if the player is known.
    pub fn get_player_state(&self, player_id: &str) -> (r: Option<PlayerAdvancementState>)
        ensures
            match r {
                Some(s) => self@.contains_key(player_id@) && s@ == self@[player_id@],
                None => !self@.contains_key(player_id@),
            },
    {
        match self.advancements.get(player_id) {
            Some(s) => Some(s.clone()),
            None => None,
        }
    }

    /// Puts a player's state back under its id.
    fn store(&mut self, player_id: String, state: PlayerAdvancementState)
        ensures
            final(self)@ == old(self)@.insert(player_id@, state@),
            final(self).definitions() == old(self).definitions(),
    {
        let ghost st = state@;
        self.advancements.insert(player_id, state);
        assert(self@ =~= old(self)@.insert(player_id@, st));
    }

    /// Starts recording a player, unless the player is already known.
    pub fn init_player(&mut self, player_id: String)
        ensures
            final(self)@ == init_player_spec(old(self)@, player_id@),
            final(self).definitions() == old(self).definitions(),
    {
        if !self.advancements.contains_key(player_id.as_str()) {
            self.store(player_id, PlayerAdvancementState::default());
        }
    }

    /// Whether the player's recorded criteria complete the advancement.
    pub fn check_advancement_completion(
        &self,
        state: &PlayerAdvancementState,
        advancement_id: &str,
    ) -> (r: bool)
        ensures
            r == advancement_complete(self.definitions(), state@.criteria, advancement_id@),
    {
        match self.vanilla.get(advancement_id) {
            Some(adv) => requirements_met_exec(adv, state, advancement_id),
            None => fallback_complete_exec(state, advancement_id),
        }
    }

    /// Records a criterion as achieved at time `now` (milliseconds since the Unix epoch),
    /// unless the player is unknown or the criterion is already recorded. Returns whether
    /// it was recorded, and whether the advancement is then complete.
    pub fn grant_criterion(
        &mut self,
        player_id: &str,
        advancement_id: &str,
        criterion_id: &str,
        now: Option<i64>,
    ) -> (r: (bool, bool))
        ensures
            (final(self)@, r) == grant_criterion_spec(
                old(self)@,
                old(self).definitions(),
                player_id@,
                advancement_id@,
                criterion_id@,
                now,
            ),
            final(self).definitions() == old(self).definitions(),
    {
        let key = make_criterion_key(advancement_id, criterion_id);
        match self.advancements.get(player_id) {
            Some(st) => {
                if st.criteria.contains_key(key.as_str()) {
                    return (false, false);
                }
            },
            None => {
                return (false, false);
            },
        }
        let pid = player_id.to_owned();
        let taken = self.advancements.insert(pid.clone(), PlayerAdvancementState::default());
        let mut state = match taken {
            Some(s) => s,
            None => {
                return (false, false);
            },
        };
        let ghost before = state@;
        let progress = CriterionProgress {
            criterion_id: criterion_id.to_owned(),
            achieved: true,
            date: now,
        };
        state.criteria.insert(key, progress);
        assert(state@ =~= with_criterion(before, criterion_key(advancement_id@, criterion_id@), criterion_id@, now));
        let done = self.check_advancement_completion(&state, advancement_id);
        self.store(pid, state);
        proof {
            assert(self@ =~= old(self)@.insert(player_id@, state@));
        }
        (true, done)
    }

    /// Records an advancement as completed by the given criterion, unless the player
    /// is unknown or the advancement is already completed. Returns whether it was recorded.
    pub fn complete_advancement(
        &mut self,
        player_id: &str,
        advancement_id: &str,
        criterion_id: &str,
    ) -> (r: bool)
        ensures
            (final(self)@, r) == complete_advancement_spec(
                old(self)@,
                player_id@,
                advancement_id@,
                criterion_id@,
            ),
            final(self).definitions() == old(self).definitions(),
    {
        match self.advancements.get(player_id) {
            Some(st) => {
                if st.completed.contains_key(advancement_id) {
                    return false;
                }
            },
            None => {
                return false;
            },
        }
        let pid = player_id.to_owned();
        let taken = self.advancements.insert(pid.clone(), PlayerAdvancementState::default());
        let mut state = match taken {
            Some(s) => s,
            None => {
                return false;
            },
        };
        let ghost before = state@;
        let entry = CompletedAdvancement {
            id: advancement_id.to_owned(),
            criterion: criterion_id.to_owned(),
        };
        state.completed.insert(advancement_id.to_owned(), entry);
        assert(state@.completed =~= before.completed.insert(
            advancement_id@,
            CompletedRecord { id: advancement_id@, criterion: criterion_id@ },
        ));
        self.store(pid, state);
        proof {
            assert(self@ =~= old(self)@.insert(player_id@, state@));
        }
        true
    }

    /// Sets the player's selected tab, if the player is known.
    pub fn set_selected_tab(&mut self, player_id: &str, tab_id: Option<String>)
        ensures
            final(self)@ == set_selected_tab_spec(old(self)@, player_id@, opt_view(tab_id)),
            final(self).definitions() == old(self).definitions(),
    {
        if !self.advancements.contains_key(player_id) {
            return;
        }
        let pid = player_id.to_owned();
        let taken = self.advancements.insert(pid.clone(), PlayerAdvancementState::default());
        let mut state = match taken {
            Some(s) => s,
            None => {
                return;
            },
        };
        state.selected_tab = tab_id;
        self.store(pid, state);
        proof {
            assert(self@ =~= set_selected_tab_spec(old(self)@, player_id@, opt_view(tab_id)));
        }
    }
}

/// Whether every requirement group of the definition has an achieved criterion.
fn requirements_met_exec(adv: &Advancement, state: &PlayerAdvancementState, advancement_id: &str) -> (r: bool)
    ensures
        r == requirements_met(adv.requirements@, state@.criteria, advancement_id@),
{
    let mut g: usize = 0;
    while g < adv.requirements.len()
        invariant
            g <= adv.requirements@.len(),
            forall|h: int|
                0 <= h < g ==> group_met(
                    #[trigger] adv.requirements@[h]@,
                    state@.criteria,
                    advancement_id@,
                ),
        decreases adv.requirements@.len() - g,
    {
        let group = &adv.requirements[g];
        let mut has_completed = false;
        let mut c: usize = 0;
        while c < group.len() && !has_completed
            invariant
                c <= group@.len(),
                has_completed ==> group_met(group@, state@.criteria, advancement_id@),
                !has_completed ==> forall|d: int|
                    0 <= d < c ==> !is_achieved(
                        state@.criteria,
                        criterion_key(advancement_id@, #[trigger] group@[d]@),
                    ),
            decreases group@.len() - c,
        {
            let key = make_criterion_key(advancement_id, group[c].as_str());
            match state.criteria.get(key.as_str()) {
                Some(p) => {
                    if p.achieved {
                        has_completed = true;
                    }
                },
                None => {},
            }
            c = c + 1;
        }
        if !has_completed {
            return false;
        }
        g = g + 1;
    }
    true
}

/// Whether the player has recorded criteria of the advancement and all of them are achieved.
fn fallback_complete_exec(state: &PlayerAdvancementState, advancement_id: &str) -> (r: bool)
    ensures
        r == (has_criteria_of(state@.criteria, advancement_id@) && all_criteria_of_achieved(
            state@.criteria,
            advancement_id@,
        )),
{
    let prefix = make_key_prefix(advancement_id);
    let keys = state.criteria.keys();
    let ghost criteria = state@.criteria;
    let mut any = false;
    let mut all = true;
    let mut i: usize = 0;
    while i < keys.len()
        invariant
            criteria == state@.criteria,
            prefix@ == key_prefix(advancement_id@),
            i <= keys@.len(),
            forall|j: int| 0 <= j < keys@.len() ==> criteria.contains_key(#[trigger] keys@[j]@),
            any <==> exists|j: int| 0 <= j < i && prefix@.is_prefix_of(#[trigger] keys@[j]@),
            all <==> forall|j: int|
                0 <= j < i && prefix@.is_prefix_of(#[trigger] keys@[j]@) ==> criteria[keys@[j]@].achieved,
        decreases keys@.len() - i,
    {
        if str_starts_with(keys[i].as_str(), prefix.as_str()) {
            any = true;
            match state.criteria.get(keys[i].as_str()) {
                Some(p) => {
                    if !p.achieved {
                        all = false;
                    }
                },
                None => {
                    all = false;
                },
            }
        }
        i = i + 1;
    }
    proof {
        if has_criteria_of(criteria, advancement_id@) {
            let k = choose|k: Seq<char>| criteria.contains_key(k) && key_prefix(advancement_id@).is_prefix_of(k);
            let j = choose|j: int| 0 <= j < keys@.len() && keys@[j]@ == k;
            assert(prefix@.is_prefix_of(keys@[j]@));
        }
        if all {
            assert forall|k: Seq<char>|
                #[trigger] criteria.contains_key(k) && key_prefix(advancement_id@).is_prefix_of(k)
                    implies criteria[k].achieved by {
                let j = choose|j: int| 0 <= j < keys@.len() && keys@[j]@ == k;
                assert(prefix@.is_prefix_of(keys@[j]@));
            }
        }
    }
    any && all
}

/// Whether every criterion recorded for any player is achieved.
pub open spec fn all_recorded_achieved(players: Map<Seq<char>, PlayerProgress>) -> bool {
    forall|p: Seq<char>, k: Seq<char>|
        #[trigger] players.contains_key(p) && #[trigger] players[p].criteria.contains_key(k)
            ==> players[p].criteria[k].achieved
}

/// Starting to record a player makes the player known, and doing it again changes nothing.
pub proof fn law_init_player_idempotent(players: Map<Seq<char>, PlayerProgress>, player: Seq<char>)
    ensures
        init_player_spec(players, player).contains_key(player),
        init_player_spec(init_player_spec(players, player), player) == init_player_spec(
            players,
            player,
        ),
{
}

/// Granting a criterion to a player who is not known records nothing and changes nothing.
pub proof fn law_grant_unknown_player(
    players: Map<Seq<char>, PlayerProgress>,
    definitions: Seq<Advancement>,
    player: Seq<char>,
    advancement: Seq<char>,
    criterion: Seq<char>,
    now: Option<i64>,
)
    requires
        !players.contains_key(player),
    ensures
        grant_criterion_spec(players, definitions, player, advancement, criterion, now) == (
            players,
            (false, false),
        ),
{
}

/// A granted criterion is recorded as achieved, with the given time, under its key;
/// nothing else of any player changes.
pub proof fn law_grant_records_criterion(
    players: Map<Seq<char>, PlayerProgress>,
    definitions: Seq<Advancement>,
    player: Seq<char>,
    advancement: Seq<char>,
    criterion: Seq<char>,
    now: Option<i64>,
)
    ensures
        ({
            let (after, r) = grant_criterion_spec(
                players,
                definitions,
                player,
                advancement,
                criterion,
                now,
            );
            let key = criterion_key(advancement, criterion);
            &&& r.0 ==> after[player].criteria[key] == CriterionRecord {
                criterion_id: criterion,
                achieved: true,
                date: now,
            }
            &&& r.0 ==> after[player].completed == players[player].completed
            &&& r.0 ==> after[player].selected_tab == players[player].selected_tab
            &&& forall|k: Seq<char>|
                k != key && #[trigger] players[player].criteria.contains_key(k)
                    ==> after[player].criteria.contains_key(k) && after[player].criteria[k]
                    == players[player].criteria[k]
            &&& forall|q: Seq<char>| q != player ==> #[trigger] after.contains_key(q) == players.contains_key(q)
                && after[q] == players[q]
        }),
{
}

/// Granting the same criterion a second time records nothing and changes nothing,
/// whatever the time.
pub proof fn law_grant_twice(
    players: Map<Seq<char>, PlayerProgress>,
    definitions: Seq<Advancement>,
    player: Seq<char>,
    advancement: Seq<char>,
    criterion: Seq<char>,
    now: Option<i64>,
    later: Option<i64>,
)
    ensures
        ({
            let (once, _) = grant_criterion_spec(
                players,
                definitions,
                player,
                advancement,
                criterion,
                now,
            );
            grant_criterion_spec(once, definitions, player, advancement, criterion, later) == (
                once,
                (false, false),
            )
        }),
{
}

/// Completing the same advancement a second time records nothing and changes nothing.
pub proof fn law_complete_twice(
    players: Map<Seq<char>, PlayerProgress>,
    player: Seq<char>,
    advancement: Seq<char>,
    criterion: Seq<char>,
    other: Seq<char>,
)
    ensures
        ({
            let (once, _) = complete_advancement_spec(players, player, advancement, criterion);
            complete_advancement_spec(once, player, advancement, other) == (once, false)
        }),
{
}

/// A known player's selected tab reads back as it was set; the rest of the record stays.
pub proof fn law_selected_tab_read_back(
    players: Map<Seq<char>, PlayerProgress>,
    player: Seq<char>,
    tab: Option<Seq<char>>,
)
    requires
        players.contains_key(player),
    ensures
        set_selected_tab_spec(players, player, tab)[player].selected_tab == tab,
        set_selected_tab_spec(players, player, tab)[player].criteria == players[player].criteria,
        set_selected_tab_spec(players, player, tab)[player].completed == players[player].completed,
{
}

/// Recording an achieved criterion never undoes the completion of an advancement.
pub proof fn law_completion_monotone(
    definitions: Seq<Advancement>,
    criteria: Map<Seq<char>, CriterionRecord>,
    advancement: Seq<char>,
    key: Seq<char>,
    record: CriterionRecord,
)
    requires
        record.achieved,
        advancement_complete(definitions, criteria, advancement),
    ensures
        advancement_complete(definitions, criteria.insert(key, record), advancement),
{
    let after = criteria.insert(key, record);
    match lookup_advancement(definitions, advancement) {
        Some(def) => {
            assert forall|g: int| 0 <= g < def.requirements@.len() implies group_met(
                #[trigger] def.requirements@[g]@,
                after,
                advancement,
            ) by {
                assert(group_met(def.requirements@[g]@, criteria, advancement));
                let c = choose|c: int|
                    0 <= c < def.requirements@[g]@.len() && is_achieved(
                        criteria,
                        criterion_key(advancement, def.requirements@[g]@[c]@),
                    );
                assert(is_achieved(after, criterion_key(advancement, def.requirements@[g]@[c]@)));
            }
        },
        None => {
            let k = choose|k: Seq<char>|
                criteria.contains_key(k) && key_prefix(advancement).is_prefix_of(k);
            assert(after.contains_key(k));
        },
    }
}

/// The key of every criterion of an advancement begins with the advancement's key prefix.
pub proof fn law_criterion_key_has_prefix(advancement: Seq<char>, criterion: Seq<char>)
    ensures
        key_prefix(advancement).is_prefix_of(criterion_key(advancement, criterion)),
{
    assert(criterion_key(advancement, criterion).subrange(0, key_prefix(advancement).len() as int)
        =~= key_prefix(advancement));
}

/// Every operation keeps every recorded criterion achieved.
pub proof fn law_operations_keep_criteria_achieved(
    players: Map<Seq<char>, PlayerProgress>,
    definitions: Seq<Advancement>,
    player: Seq<char>,
    advancement: Seq<char>,
    criterion: Seq<char>,
    now: Option<i64>,
    tab: Option<Seq<char>>,
)
    requires
        all_recorded_achieved(players),
    ensures
        all_recorded_achieved(init_player_spec(players, player)),
        all_recorded_achieved(
            grant_criterion_spec(players, definitions, player, advancement, criterion, now).0,
        ),
        all_recorded_achieved(complete_advancement_spec(players, player, advancement, criterion).0),
        all_recorded_achieved(set_selected_tab_spec(players, player, tab)),
{
    let g = grant_criterion_spec(players, definitions, player, advancement, criterion, now).0;
    assert forall|p: Seq<char>, k: Seq<char>|
        #[trigger] g.contains_key(p) && #[trigger] g[p].criteria.contains_key(k) implies g[p].criteria[k].achieved by {
        if p != player {
            assert(players.contains_key(p) && players[p].criteria.contains_key(k));
        } else if k != criterion_key(advancement, criterion) {
            assert(players[p].criteria.contains_key(k));
        }
    }
    let c = complete_advancement_spec(players, player, advancement, criterion).0;
    assert forall|p: Seq<char>, k: Seq<char>|
        #[trigger] c.contains_key(p) && #[trigger] c[p].criteria.contains_key(k) implies c[p].criteria[k].achieved by {
        assert(players.contains_key(p) && players[p].criteria.contains_key(k));
    }
    let t = set_selected_tab_spec(players, player, tab);
    assert forall|p: Seq<char>, k: Seq<char>|
        #[trigger] t.contains_key(p) && #[trigger] t[p].criteria.contains_key(k) implies t[p].criteria[k].achieved by {
        assert(players.contains_key(p) && players[p].criteria.contains_key(k));
    }
    let i = init_player_spec(players, player);
    assert forall|p: Seq<char>, k: Seq<char>|
        #[trigger] i.contains_key(p) && #[trigger] i[p].criteria.contains_key(k) implies i[p].criteria[k].achieved by {
        if p != player || players.contains_key(player) {
            assert(players.contains_key(p) && players[p].criteria.contains_key(k));
        }
    }
}

/// When every recorded criterion is achieved, granting a new criterion of an advancement
/// that has no definition completes that advancement.
pub proof fn law_undefined_advancement_completes_on_grant(
    players: Map<Seq<char>, PlayerProgress>,
    definitions: Seq<Advancement>,
    player: Seq<char>,
    advancement: Seq<char>,
    criterion: Seq<char>,
    now: Option<i64>,
)
    requires
        all_recorded_achieved(players),
        lookup_advancement(definitions, advancement) is None,
        players.contains_key(player),
        !players[player].criteria.contains_key(criterion_key(advancement, criterion)),
    ensures
        grant_criterion_spec(players, definitions, player, advancement, criterion, now).1 == (
            true,
            true,
        ),
{
    let key = criterion_key(advancement, criterion);
    let after = with_criterion(players[player], key, criterion, now);
    law_criterion_key_has_prefix(advancement, criterion);
    assert(after.criteria.contains_key(key));
    assert forall|k: Seq<char>|
        #[trigger] after.criteria.contains_key(k) && key_prefix(advancement).is_prefix_of(k)
            implies after.criteria[k].achieved by {
        if k != key {
            assert(players[player].criteria.contains_key(k));
        }
    }
}

/// Completing an advancement a known player has not completed always succeeds and
/// records it with the given criterion, whatever else the player has completed; every
/// earlier completion and all criteria stay as they were.
pub proof fn law_complete_records_advancement(
    players: Map<Seq<char>, PlayerProgress>,
    player: Seq<char>,
    advancement: Seq<char>,
    criterion: Seq<char>,
)
    requires
        players.contains_key(player),
        !players[player].completed.contains_key(advancement),
    ensures
        ({
            let (after, r) = complete_advancement_spec(players, player, advancement, criterion);
            &&& r
            &&& after.contains_key(player)
            &&& after[player].completed.contains_key(advancement)
            &&& after[player].completed[advancement] == CompletedRecord {
                id: advancement,
                criterion,
            }
            &&& forall|k: Seq<char>|
                #[trigger] players[player].completed.contains_key(k) ==> after[player].completed.contains_key(k)
                    && after[player].completed[k] == players[player].completed[k]
            &&& after[player].criteria == players[player].criteria
            &&& after[player].selected_tab == players[player].selected_tab
        }),
{
}

/// Granting a criterion a known player has not recorded always succeeds and records it
/// as achieved at the given time, keeping every criterion recorded before.
pub proof fn law_grant_records_new_criterion(
    players: Map<Seq<char>, PlayerProgress>,
    definitions: Seq<Advancement>,
    player: Seq<char>,
    advancement: Seq<char>,
    criterion: Seq<char>,
    now: Option<i64>,
)
    requires
        players.contains_key(player),
        !players[player].criteria.contains_key(criterion_key(advancement, criterion)),
    ensures
        ({
            let (after, r) = grant_criterion_spec(
                players,
                definitions,
                player,
                advancement,
                criterion,
                now,
            );
            let key = criterion_key(advancement, criterion);
            &&& r.0
            &&& after.contains_key(player)
            &&& after[player].criteria.contains_key(key)
            &&& after[player].criteria[key] == CriterionRecord {
                criterion_id: criterion,
                achieved: true,
                date: now,
            }
            &&& forall|k: Seq<char>|
                #[trigger] players[player].criteria.contains_key(k) ==> after[player].criteria.contains_key(k)
                    && after[player].criteria[k] == players[player].criteria[k]
        }),
{
}

/// Granting a list of criteria to a known player leaves every pair of the list recorded
/// under its key, keeps every criterion recorded before, and keeps every player known.
pub proof fn law_grant_each_records_every_pair(
    players: Map<Seq<char>, PlayerProgress>,
    definitions: Seq<Advancement>,
    player: Seq<char>,
    grants: Seq<(Seq<char>, Seq<char>)>,
    now: Option<i64>,
)
    requires
        players.contains_key(player),
    ensures
        ({
            let after = grant_each_spec(players, definitions, player, grants, now);
            &&& after.contains_key(player)
            &&& forall|i: int|
                0 <= i < grants.len() ==> after[player].criteria.contains_key(
                    criterion_key((#[trigger] grants[i]).0, grants[i].1),
                )
            &&& forall|k: Seq<char>|
                #[trigger] players[player].criteria.contains_key(k) ==> after[player].criteria.contains_key(k)
            &&& forall|q: Seq<char>| #[trigger] players.contains_key(q) ==> after.contains_key(q)
        }),
    decreases grants.len(),
{
    if grants.len() > 0 {
        let prev_grants = grants.drop_last();
        law_grant_each_records_every_pair(players, definitions, player, prev_grants, now);
        let prev = grant_each_spec(players, definitions, player, prev_grants, now);
        let last = grants.last();
        let after = grant_each_spec(players, definitions, player, grants, now);
        assert(after == grant_criterion_spec(prev, definitions, player, last.0, last.1, now).0);
        assert forall|i: int| 0 <= i < grants.len() implies after[player].criteria.contains_key(
            criterion_key((#[trigger] grants[i]).0, grants[i].1),
        ) by {
            if i < grants.len() - 1 {
                assert(prev_grants[i] == grants[i]);
                assert(prev[player].criteria.contains_key(criterion_key(prev_grants[i].0, prev_grants[i].1)));
            }
        }
        assert forall|k: Seq<char>| #[trigger] players[player].criteria.contains_key(k) implies after[player].criteria.contains_key(k) by {
            assert(prev[player].criteria.contains_key(k));
        }
        assert forall|q: Seq<char>| #[trigger] players.contains_key(q) implies after.contains_key(q) by {
            assert(prev.contains_key(q));
        }
    }
}

/// A definition found for an id has exactly that id, and one is found exactly when some
/// definition has that id.
pub proof fn law_lookup_finds_exact_id(advancements: Seq<Advancement>, id: Seq<char>)
    ensures
        lookup_advancement(advancements, id) matches Some(a) ==> a.id@ == id,
        lookup_advancement(advancements, id) is Some <==> exists|i: int|
            0 <= i < advancements.len() && #[trigger] advancements[i].id@ == id,
{
    if exists|i: int| 0 <= i < advancements.len() && #[trigger] advancements[i].id@ == id {
        let i = choose|i: int| 0 <= i < advancements.len() && #[trigger] advancements[i].id@ == id;
        lemma_first_with_id_exists(advancements, id, i);
    }
    if exists|k: int| first_with_id(advancements, id, k) {
        let k = choose|k: int| first_with_id(advancements, id, k);
        assert(advancements[k].id@ == id);
    }
}

proof fn lemma_first_with_id_exists(advancements: Seq<Advancement>, id: Seq<char>, i: int)
    requires
        0 <= i < advancements.len(),
        advancements[i].id@ == id,
    ensures
        exists|k: int| first_with_id(advancements, id, k),
    decreases i,
{
    if forall|j: int| 0 <= j < i ==> advancements[j].id@ != id {
        assert(first_with_id(advancements, id, i));
    } else {
        let j = choose|j: int| 0 <= j < i && advancements[j].id@ == id;
        lemma_first_with_id_exists(advancements, id, j);
    }
}

} // verus!
