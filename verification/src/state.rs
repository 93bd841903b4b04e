//! The engine: what a game is made of, and how one tick moves it on.

use crate::animation::Animation;
use crate::card::Card;
use crate::card_state::CardState;
use crate::card_state::draw_count;
use crate::card_state::drawn;
use crate::card_state::filled_deck;
use crate::card_state::filled_hand;
use crate::card_state::HandIndex;
use crate::entity_store::ComponentFlags;
use crate::entity_store::ComponentType;
use crate::entity_store::ComponentValue;
use crate::entity_store::EntityChange;
use crate::entity_store::EntityComponentTable;
use crate::entity_store::EntityId;
use crate::entity_store::EntityIdAllocator;
use crate::entity_store::EntityStore;
use crate::entity_store::lemma_mirrors_apply;
use crate::entity_store::lemma_replay_push;
use crate::entity_store::members_of;
use crate::entity_store::StoreView;
use crate::geometry::CardinalDirection;
use crate::geometry::CompassDirection;
use crate::geometry::Position;
use crate::geometry::Size;
use crate::input::Input;
use crate::level::glyph_known;
use crate::level::glyphs;
use crate::level::Legend;
use crate::level::level_changes;
use crate::level::level_ids;
use crate::level::level_ok;
use crate::level::level_player;
use crate::level::level_size;
use crate::level::read_level;
use crate::pathfinding::act;
use crate::pathfinding::actor_move;
use crate::pathfinding::actor_moves;
use crate::pathfinding::distance_costs;
use crate::pathfinding::is_distance_field;
use crate::pathfinding::lemma_cells_agree;
use crate::pathfinding::solid_cells_in;
use crate::pathfinding::solid_or_occupied;
use crate::pathfinding::solid_or_occupied_in;
use crate::entity_store::is_dump_of;
use crate::entity_store::sorted_ids;
use crate::entity_store::spec_dump;
use crate::pathfinding::bfs_context_for;
use crate::pathfinding::bfs_size;
use crate::pathfinding::compute_player_map;
use crate::pathfinding::cost_at;
use crate::pathfinding::distance_map_for;
use crate::pathfinding::distance_map_size;
use crate::pathfinding::is_searchable;
use crate::pathfinding::searchable;
use crate::policy::emitted;
use crate::policy::pickups;
use crate::policy::resolved;
use crate::policy;
use crate::random::rng_from_seed;
use crate::reaction::lemma_removals_of_none;
use crate::reaction::Reaction;
use crate::spatial_hash::SpatialHashTable;
use crate::spatial_hash::lemma_stamps_chain;
use crate::spatial_hash::stamps_follow;
use crate::spatial_hash::touches;
use crate::tile::TileInfo;
use grid_search::BfsContext;
use grid_search::DistanceMap;
use rand::StdRng;
use vstd::multiset::Multiset;
use vstd::prelude::*;

verus! {

/// What a tick reports to the application around it.
#[derive(Clone, Copy, Debug, PartialEq, Eq, Structural)]
pub enum Meta {
    /// The player has no card left to play.
    GameOver,
}

/// The component tables with everything that is kept in step with them.
pub struct GameState {
    pub entity_store: EntityStore,
    pub spatial_hash: SpatialHashTable,
    pub entity_components: EntityComponentTable,
    pub id_allocator: EntityIdAllocator,
    /// The number of changes committed so far.
    pub count: u64,
}

/// The removal of each component of `id` that `flags` records.
pub open spec fn removals_of(id: EntityId, flags: ComponentFlags) -> Seq<EntityChange> {
    Seq::new(flags.spec_kinds().len(), |i: int| EntityChange::Remove(id, flags.spec_kinds()[i]))
}

impl GameState {
    /// The spatial index and the reverse index agree with the component
    /// tables.
    pub open spec fn wf(&self) -> bool {
        &&& self.spatial_hash.reflects(self.entity_store@)
        &&& self.entity_components.mirrors(self.entity_store@)
    }

    /// An empty game on a grid of the given size.
    pub fn new(size: Size) -> (game: GameState)
        requires
            size.count() <= usize::MAX,
        ensures
            game.wf(),
            game.entity_store@ == StoreView::empty(),
            game.spatial_hash.size == size,
            game.spatial_hash.unstamped(),
            game.id_allocator.next == 0,
            game.count == 0,
    {
        GameState {
            entity_store: EntityStore::new(),
            spatial_hash: SpatialHashTable::new(size),
            entity_components: EntityComponentTable::new(),
            id_allocator: EntityIdAllocator::new(),
            count: 0,
        }
    }

    /// Commits `change`, which is taken to be valid: the spatial index
    /// hears of it first, stamped with the current turn, then the
    /// reverse index, then the component tables; and the turn counter
    /// moves on by one.
    pub fn commit(&mut self, change: EntityChange)
        requires
            old(self).wf(),
            old(self).count < u64::MAX,
        ensures
            final(self).wf(),
            final(self).entity_store@ == old(self).entity_store@.apply(change),
            final(self).spatial_hash.size == old(self).spatial_hash.size,
            final(self).id_allocator == old(self).id_allocator,
            final(self).count == old(self).count + 1,
            forall|coord: Position|
                #![trigger final(self).spatial_hash.spec_cell(coord)]
                old(self).spatial_hash.size.contains(coord) ==> final(self).spatial_hash.spec_cell(
                    coord,
                ).last_updated == (if touches(old(self).entity_store@, change, coord) {
                    old(self).count
                } else {
                    old(self).spatial_hash.spec_cell(coord).last_updated
                }),
    {
        let ghost before = self.entity_components;
        self.spatial_hash.update(&self.entity_store, &change, self.count);
        self.entity_components.update(&change);
        proof {
            lemma_mirrors_apply(&before, &self.entity_components, self.entity_store@, change);
        }
        self.entity_store.commit(change);
        self.count = self.count + 1;
    }

    /// Like [`commit`](Self::commit), with the stamp and the turn
    /// counter left at what they are: for rebuilding a game from a list
    /// of changes.
    pub fn restore(&mut self, change: EntityChange)
        requires
            old(self).wf(),
        ensures
            final(self).wf(),
            final(self).entity_store@ == old(self).entity_store@.apply(change),
            final(self).spatial_hash.size == old(self).spatial_hash.size,
            final(self).id_allocator == old(self).id_allocator,
            final(self).count == old(self).count,
            forall|coord: Position|
                #![trigger final(self).spatial_hash.spec_cell(coord)]
                old(self).spatial_hash.size.contains(coord) ==> final(self).spatial_hash.spec_cell(
                    coord,
                ).last_updated == (if touches(old(self).entity_store@, change, coord) {
                    0
                } else {
                    old(self).spatial_hash.spec_cell(coord).last_updated
                }),
    {
        let ghost before = self.entity_components;
        self.spatial_hash.update(&self.entity_store, &change, 0);
        self.entity_components.update(&change);
        proof {
            lemma_mirrors_apply(&before, &self.entity_components, self.entity_store@, change);
        }
        self.entity_store.commit(change);
    }

    /// The game that committing `changes`, in order, to an empty game
    /// on a grid of the given size leads to, with the turn counter at 0.
    pub fn rebuild(size: Size, changes: &Vec<EntityChange>) -> (game: GameState)
        requires
            size.count() <= usize::MAX,
        ensures
            game.wf(),
            game.entity_store@ == StoreView::empty().replay(changes@),
            game.spatial_hash.size == size,
            game.spatial_hash.unstamped(),
            game.id_allocator.next == 0,
            game.count == 0,
    {
        let mut game = GameState::new(size);
        let mut k: usize = 0;
        while k < changes.len()
            invariant
                k <= changes@.len(),
                game.wf(),
                game.entity_store@ == StoreView::empty().replay(changes@.take(k as int)),
                game.spatial_hash.size == size,
                game.spatial_hash.unstamped(),
                game.id_allocator.next == 0,
                game.count == 0,
            decreases changes@.len() - k,
        {
            proof {
                lemma_replay_push(StoreView::empty(), changes@.take(k as int), changes@[k as int]);
                assert(changes@.take(k + 1) =~= changes@.take(k as int).push(changes@[k as int]));
            }
            game.restore(changes[k]);
            k = k + 1;
        }
        assert(changes@.take(k as int) =~= changes@);
        game
    }

    /// Proposes the removal of every component that `entity_id` holds.
    pub fn delete_entity(&self, entity_id: EntityId, changes: &mut Vec<EntityChange>)
        ensures
            final(changes)@ == old(changes)@ + removals_of(
                entity_id,
                self.entity_components.flags_of(entity_id),
            ),
    {
        let kinds = self.entity_components.components(entity_id);
        let ghost wanted = removals_of(entity_id, self.entity_components.flags_of(entity_id));
        let mut k: usize = 0;
        while k < kinds.len()
            invariant
                k <= kinds@.len(),
                wanted.len() == kinds@.len(),
                forall|i: int|
                    0 <= i < wanted.len() ==> #[trigger] wanted[i] == EntityChange::Remove(
                        entity_id,
                        kinds@[i],
                    ),
                changes@ == old(changes)@ + wanted.take(k as int),
            decreases kinds@.len() - k,
        {
            changes.push(EntityChange::Remove(entity_id, kinds[k]));
            k = k + 1;
            assert(changes@ =~= old(changes)@ + wanted.take(k as int));
        }
        assert(wanted.take(k as int) =~= wanted);
    }
}

/// Where the player is in choosing a card to play.
#[derive(Clone, Copy, Debug, PartialEq, Eq, Structural)]
pub enum InputState {
    /// No card has been picked.
    WaitingForCardSelection,
    /// The card at this position of the hand has been picked and wants a
    /// direction.
    WaitingForDirection(HandIndex, Card),
}

/// A card that the player has asked to play: its position in the hand,
/// the card, and the direction.
#[derive(Clone, Copy, Debug, PartialEq, Eq, Structural)]
pub struct Play {
    pub index: HandIndex,
    pub card: Card,
    pub direction: CardinalDirection,
}

/// What the inputs of one tick come to.
#[derive(Clone, Copy, Debug, PartialEq, Eq, Structural)]
pub struct Interpretation {
    pub input_state: InputState,
    pub play: Option<Play>,
}

impl InputState {
    /// What is picked agrees with what the hand holds.
    pub open spec fn fits(self, hand: Seq<Card>) -> bool {
        match self {
            InputState::WaitingForCardSelection => true,
            InputState::WaitingForDirection(index, card) => index < hand.len() && hand[index as int]
                == card,
        }
    }
}

impl Interpretation {
    /// What one more input makes of an interpretation: picking a
    /// position that the hand has picks that card, whatever was picked
    /// before; a direction asks to play the card that is picked.
    pub open spec fn spec_then(self, hand: Seq<Card>, input: Input) -> Interpretation {
        match input {
            Input::SelectCard(index) => if index < hand.len() {
                Interpretation {
                    input_state: InputState::WaitingForDirection(index, hand[index as int]),
                    play: self.play,
                }
            } else {
                self
            },
            Input::Direction(direction) => match self.input_state {
                InputState::WaitingForDirection(index, card) => Interpretation {
                    input_state: self.input_state,
                    play: Some(Play { index, card, direction }),
                },
                InputState::WaitingForCardSelection => self,
            },
        }
    }

    /// What is picked, and what is asked to be played, agree with what
    /// the hand holds.
    pub open spec fn fits(self, hand: Seq<Card>) -> bool {
        &&& self.input_state.fits(hand)
        &&& self.play matches Some(play) ==> play.index < hand.len() && hand[play.index as int]
            == play.card
    }
}

/// What `inputs`, read in order, make of the input state `start`.
pub open spec fn spec_interpret(hand: Seq<Card>, start: InputState, inputs: Seq<Input>) -> Interpretation
    decreases inputs.len(),
{
    if inputs.len() == 0 {
        Interpretation { input_state: start, play: None }
    } else {
        spec_interpret(hand, start, inputs.drop_last()).spec_then(hand, inputs.last())
    }
}

/// Reads `inputs` in order, starting from the input state `start`.
pub fn interpret(hand: &Vec<Card>, start: InputState, inputs: &Vec<Input>) -> (r: Interpretation)
    requires
        start.fits(hand@),
    ensures
        r == spec_interpret(hand@, start, inputs@),
        r.fits(hand@),
{
    let mut r = Interpretation { input_state: start, play: None };
    let mut k: usize = 0;
    while k < inputs.len()
        invariant
            k <= inputs@.len(),
            r == spec_interpret(hand@, start, inputs@.take(k as int)),
            r.fits(hand@),
        decreases inputs@.len() - k,
    {
        assert(inputs@.take(k + 1).drop_last() =~= inputs@.take(k as int));
        match inputs[k] {
            Input::SelectCard(index) => {
                if index < hand.len() {
                    r.input_state = InputState::WaitingForDirection(index, hand[index]);
                }
            },
            Input::Direction(direction) => {
                match r.input_state {
                    InputState::WaitingForDirection(index, card) => {
                        r.play = Some(Play { index, card, direction });
                    },
                    InputState::WaitingForCardSelection => {},
                }
            },
        }
        k = k + 1;
    }
    assert(inputs@.take(k as int) =~= inputs@);
    r
}

/// What stepping each of `animations` by `period_millis` emits, in
/// order.
pub open spec fn spec_step_all(animations: Seq<Animation>, period_millis: u64) -> Seq<Reaction> {
    Seq::new(animations.len(), |i: int| animations[i].spec_step(period_millis))
}

/// Steps each of `animations` by `period_millis` and leaves none
/// running: one that has time left asks to be started again.
pub fn step_all(animations: &mut Vec<Animation>, period_millis: u64, reactions: &mut Vec<Reaction>)
    ensures
        final(animations)@ == Seq::<Animation>::empty(),
        final(reactions)@ == old(reactions)@ + spec_step_all(old(animations)@, period_millis),
{
    let ghost emitted = spec_step_all(animations@, period_millis);
    let mut k: usize = 0;
    while k < animations.len()
        invariant
            k <= animations@.len(),
            animations@ == old(animations)@,
            emitted == spec_step_all(animations@, period_millis),
            reactions@ == old(reactions)@ + emitted.take(k as int),
        decreases animations@.len() - k,
    {
        let animation = animations[k];
        animation.step(period_millis, reactions);
        k = k + 1;
        assert(reactions@ =~= old(reactions)@ + emitted.take(k as int));
    }
    assert(emitted.take(k as int) =~= emitted);
    animations.clear();
}

/// A change that cannot make the rules emit anything: any change but
/// one that gives an entity a position.
pub open spec fn calm(change: EntityChange) -> bool {
    !(change is Insert && change.spec_typ() == ComponentType::Coord)
}

/// Every one of `changes` is calm.
pub open spec fn all_calm(changes: Seq<EntityChange>) -> bool {
    forall|i: int| 0 <= i < changes.len() ==> calm(#[trigger] changes[i])
}

/// None of `reactions` asks for a change of its own choosing.
pub open spec fn no_entity_change(reactions: Seq<Reaction>) -> bool {
    forall|i: int| 0 <= i < reactions.len() ==> !((#[trigger] reactions[i]) is EntityChange)
}

/// None of `reactions` takes a card.
pub open spec fn no_take_card(reactions: Seq<Reaction>) -> bool {
    forall|i: int| 0 <= i < reactions.len() ==> !((#[trigger] reactions[i]) is TakeCard)
}

/// The cards that `reactions` take.
pub open spec fn taken(reactions: Seq<Reaction>) -> Multiset<Card>
    decreases reactions.len(),
{
    if reactions.len() == 0 {
        Multiset::empty()
    } else {
        match reactions.last() {
            Reaction::TakeCard(_, card) => taken(reactions.drop_last()).insert(card),
            _ => taken(reactions.drop_last()),
        }
    }
}

/// How many of `reactions` take a card.
pub open spec fn count_takes(reactions: Seq<Reaction>) -> nat
    decreases reactions.len(),
{
    if reactions.len() == 0 {
        0
    } else {
        count_takes(reactions.drop_last()) + (if reactions.last() is TakeCard {
            1nat
        } else {
            0nat
        })
    }
}

/// The animations that `reactions` start, in order.
pub open spec fn started(reactions: Seq<Reaction>) -> Seq<Animation>
    decreases reactions.len(),
{
    if reactions.len() == 0 {
        Seq::empty()
    } else {
        started(reactions.drop_last()) + (match reactions.last() {
            Reaction::StartAnimation(animation) => seq![animation],
            _ => Seq::empty(),
        })
    }
}

/// None of `reactions` starts an animation.
pub open spec fn no_start(reactions: Seq<Reaction>) -> bool {
    forall|i: int| 0 <= i < reactions.len() ==> !((#[trigger] reactions[i]) is StartAnimation)
}

/// What two lists of reactions start, one after the other, is what
/// their concatenation starts.
pub proof fn lemma_started_concat(a: Seq<Reaction>, b: Seq<Reaction>)
    ensures
        started(a + b) == started(a) + started(b),
    decreases b.len(),
{
    if b.len() == 0 {
        assert(a + b =~= a);
        assert(started(a) + started(b) =~= started(a));
    } else {
        lemma_started_concat(a, b.drop_last());
        assert((a + b).drop_last() =~= a + b.drop_last());
        assert((a + b).last() == b.last());
        let tail = match b.last() {
            Reaction::StartAnimation(animation) => seq![animation],
            _ => Seq::<Animation>::empty(),
        };
        assert((started(a) + started(b.drop_last())) + tail =~= started(a) + (started(
            b.drop_last(),
        ) + tail));
    }
}

/// Reactions none of which starts an animation start none.
pub proof fn lemma_started_none(reactions: Seq<Reaction>)
    requires
        no_start(reactions),
    ensures
        started(reactions) == Seq::<Animation>::empty(),
    decreases reactions.len(),
{
    if reactions.len() > 0 {
        assert(!(reactions[reactions.len() - 1] is StartAnimation));
        assert forall|i: int| 0 <= i < reactions.drop_last().len() implies !((
        #[trigger] reactions.drop_last()[i]) is StartAnimation) by {
            assert(reactions.drop_last()[i] == reactions[i]);
        }
        lemma_started_none(reactions.drop_last());
        assert(started(reactions.drop_last()) + Seq::<Animation>::empty() =~= Seq::<
            Animation,
        >::empty());
    }
}

/// Playing a card asks for no reaction that carries a change of its
/// own.
pub proof fn lemma_play_carries_no_change(
    card: Card,
    view: StoreView,
    id: EntityId,
    direction: CardinalDirection,
    ids: EntityIdAllocator,
)
    ensures
        no_entity_change(card.spec_reactions(view, id, direction, ids)),
{
}

/// A punch that takes effect starts one animation: the one that takes
/// its trace away.
pub proof fn lemma_punch_starts_one(
    view: StoreView,
    id: EntityId,
    direction: CardinalDirection,
    ids: EntityIdAllocator,
)
    requires
        Card::Punch.takes_effect(view, id, direction, ids),
    ensures
        started(Card::Punch.spec_reactions(view, id, direction, ids)) == seq![
            Animation::RemoveEntity(ids.next, crate::card::PUNCH_MILLIS),
        ],
{
    let all = Card::Punch.spec_reactions(view, id, direction, ids);
    let head = seq![
        Reaction::StartAnimation(Animation::RemoveEntity(ids.next, crate::card::PUNCH_MILLIS)),
    ];
    let tail = crate::reaction::removals_of_each(
        view,
        view.target_at(crate::card::spec_aim(view, id, direction)->0),
    );
    assert(all == head + tail);
    lemma_started_concat(head, tail);
    assert(head.drop_last() =~= Seq::<Reaction>::empty());
    assert(started(head.drop_last()) =~= Seq::<Animation>::empty());
    assert(started(head) =~= seq![
        Animation::RemoveEntity(ids.next, crate::card::PUNCH_MILLIS),
    ]);
    assert(no_start(tail));
    lemma_started_none(tail);
    assert(started(head) + Seq::<Animation>::empty() =~= started(head));
}

/// Reactions extended by nothing but taken cards start what they
/// started before.
pub proof fn lemma_takes_start_none(before: Seq<Reaction>, after: Seq<Reaction>)
    requires
        after.len() >= before.len(),
        after.take(before.len() as int) == before,
        forall|i: int| before.len() <= i < after.len() ==> (#[trigger] after[i]) is TakeCard,
    ensures
        started(after) == started(before),
{
    let tail = after.skip(before.len() as int);
    assert(after =~= after.take(before.len() as int) + tail);
    lemma_started_concat(before, tail);
    assert(no_start(tail));
    lemma_started_none(tail);
    assert(started(before) + Seq::<Animation>::empty() =~= started(before));
}

/// Which kinds of component `id` holds in `view`.
pub open spec fn flags_in(view: StoreView, id: EntityId) -> ComponentFlags {
    ComponentFlags {
        coord: view.coord.contains_key(id),
        solid: view.solid.contains(id),
        tile: view.tile.contains_key(id),
        player: view.player.contains(id),
        card: view.card.contains_key(id),
        npc: view.npc.contains(id),
    }
}

/// The changes that dispatching `reaction` asks for: the removal of
/// every component of an entity that is taken or removed, the change
/// that a reaction carries, and nothing for an animation.
pub open spec fn asked_by(view: StoreView, reaction: Reaction) -> Seq<EntityChange> {
    match reaction {
        Reaction::TakeCard(id, _) => removals_of(id, flags_in(view, id)),
        Reaction::RemoveEntity(id) => removals_of(id, flags_in(view, id)),
        Reaction::StartAnimation(_) => Seq::empty(),
        Reaction::EntityChange(change) => seq![change],
    }
}

/// The changes that dispatching `reactions` in order asks for.
pub open spec fn asked_by_all(view: StoreView, reactions: Seq<Reaction>) -> Seq<EntityChange>
    decreases reactions.len(),
{
    if reactions.len() == 0 {
        Seq::empty()
    } else {
        asked_by_all(view, reactions.drop_last()) + asked_by(view, reactions.last())
    }
}

/// Reactions none of which carries a change of its own ask for calm
/// changes only.
pub proof fn lemma_asked_calm(view: StoreView, reactions: Seq<Reaction>)
    requires
        no_entity_change(reactions),
    ensures
        all_calm(asked_by_all(view, reactions)),
    decreases reactions.len(),
{
    if reactions.len() > 0 {
        assert forall|i: int| 0 <= i < reactions.drop_last().len() implies !((
        #[trigger] reactions.drop_last()[i]) is EntityChange) by {
            assert(reactions.drop_last()[i] == reactions[i]);
        }
        lemma_asked_calm(view, reactions.drop_last());
        assert(!(reactions[reactions.len() - 1] is EntityChange));
    }
}

/// Validating calm changes emits nothing.
pub proof fn lemma_calm_emits_nothing(
    view: StoreView,
    size: Size,
    changes: Seq<EntityChange>,
    headroom: nat,
)
    requires
        all_calm(changes),
    ensures
        emitted(view, size, changes, headroom) == Seq::<Reaction>::empty(),
    decreases changes.len(),
{
    if changes.len() > 0 {
        assert forall|i: int| 0 <= i < changes.drop_last().len() implies calm(
            #[trigger] changes.drop_last()[i],
        ) by {
            assert(changes.drop_last()[i] == changes[i]);
        }
        lemma_calm_emits_nothing(view, size, changes.drop_last(), headroom);
        assert(calm(changes[changes.len() - 1]));
        let before = resolved(view, size, changes.drop_last(), headroom);
        lemma_removals_of_none(view.replay(before));
        assert(Seq::<Reaction>::empty() + Seq::<Reaction>::empty() =~= Seq::<Reaction>::empty());
    }
}

/// Stepping animations emits no reaction that takes a card.
pub proof fn lemma_steps_take_no_card(animations: Seq<Animation>, period_millis: u64)
    ensures
        no_take_card(spec_step_all(animations, period_millis)),
{
}

/// Stepping animations emits no reaction that carries a change of its
/// own.
pub proof fn lemma_steps_carry_no_change(animations: Seq<Animation>, period_millis: u64)
    ensures
        no_entity_change(spec_step_all(animations, period_millis)),
{
}

/// The whole of a game between two ticks, and while a tick resolves.
pub struct State {
    pub game_state: GameState,
    pub player_id: EntityId,
    /// The changes that wait to be validated. Empty between ticks.
    pub changes: Vec<EntityChange>,
    /// The reactions that wait to be dispatched. Empty between ticks.
    pub reactions: Vec<Reaction>,
    /// The animations that are running.
    pub animations: Vec<Animation>,
    pub card_state: CardState,
    pub input_state: InputState,
    pub bfs: BfsContext,
    /// The distance of each cell from the player, as of the last time
    /// the actors moved.
    pub player_map: DistanceMap<u32>,
    pub path: Vec<CompassDirection>,
    pub rng: StdRng,
}

impl State {
    /// What holds of a state at every moment: the indexes agree with the
    /// component tables, the search structures are as large as the
    /// grid, the hand holds no more than it can, and what is picked is
    /// in the hand.
    pub open spec fn running(&self) -> bool {
        &&& self.game_state.wf()
        &&& searchable(self.game_state.spatial_hash.size)
        &&& bfs_size(self.bfs) == (
            self.game_state.spatial_hash.size.width as nat,
            self.game_state.spatial_hash.size.height as nat,
        )
        &&& distance_map_size(self.player_map) == (
            self.game_state.spatial_hash.size.width as nat,
            self.game_state.spatial_hash.size.height as nat,
        )
        &&& self.card_state.wf()
        &&& self.input_state.fits(self.card_state.hand.cards@)
    }

    /// What holds of a state between ticks: all of
    /// [`running`](Self::running), and nothing is pending.
    pub open spec fn wf(&self) -> bool {
        &&& self.running()
        &&& self.changes@.len() == 0
        &&& self.reactions@.len() == 0
    }

    /// Validates each pending change in turn and commits those that the
    /// rules accept. The first one accepted takes `play`'s card out of
    /// the hand, fills the hand up again and resets the input state. A
    /// change is also dropped where the turn counter cannot move on.
    ///
    /// Returns the play if its card is still in the hand, and the
    /// changes that were committed.
    fn drain_changes(&mut self, play: Option<Play>) -> (r: (Option<Play>, Ghost<Seq<EntityChange>>))
        requires
            old(self).running(),
            play matches Some(p) ==> p.index < old(self).card_state.hand.cards@.len() && old(self).card_state.hand.cards@[p.index as int] == p.card,
        ensures
            final(self).running(),
            final(self).changes@.len() == 0,
            final(self).player_id == old(self).player_id,
            final(self).player_map == old(self).player_map,
            final(self).animations@ == old(self).animations@,
            final(self).game_state.spatial_hash.size == old(self).game_state.spatial_hash.size,
            final(self).game_state.id_allocator == old(self).game_state.id_allocator,
            r.1@ == resolved(
                old(self).game_state.entity_store@,
                old(self).game_state.spatial_hash.size,
                old(self).changes@,
                (u64::MAX - old(self).game_state.count) as nat,
            ),
            final(self).game_state.entity_store@ == old(self).game_state.entity_store@.replay(
                r.1@,
            ),
            final(self).game_state.count == old(self).game_state.count + r.1@.len(),
            stamps_follow(
                final(self).game_state.spatial_hash,
                old(self).game_state.spatial_hash,
                old(self).game_state.entity_store@,
                r.1@,
                old(self).game_state.count as int,
            ),
            final(self).card_state.hand.capacity == old(self).card_state.hand.capacity,
            r.1@.len() == 0 ==> r.0 == play && final(self).game_state == old(self).game_state
                && final(self).reactions@ == old(self).reactions@,
            play is Some && r.1@.len() > 0 ==> r.0 is None,
            r.0 is Some ==> r.0 == play,
            r.0 == play ==> final(self).card_state == old(self).card_state && final(self).input_state == old(self).input_state,
            play is Some && r.0 is None ==> {
                &&& final(self).input_state == InputState::WaitingForCardSelection
                &&& final(self).card_state.hand.cards@ == filled_hand(
                    old(self).card_state.deck.cards@,
                    old(self).card_state.hand.cards@.remove(play->0.index as int),
                    old(self).card_state.hand.capacity as int,
                )
                &&& final(self).card_state.deck.cards@ == filled_deck(
                    old(self).card_state.deck.cards@,
                    old(self).card_state.hand.cards@.remove(play->0.index as int),
                    old(self).card_state.hand.capacity as int,
                )
            },
            final(self).reactions@ == old(self).reactions@ + emitted(
                old(self).game_state.entity_store@,
                old(self).game_state.spatial_hash.size,
                old(self).changes@,
                (u64::MAX - old(self).game_state.count) as nat,
            ),
            final(self).reactions@.len() >= old(self).reactions@.len(),
            final(self).reactions@.take(old(self).reactions@.len() as int) == old(self).reactions@,
            forall|i: int|
                old(self).reactions@.len() <= i < final(self).reactions@.len() ==> (
                #[trigger] final(self).reactions@[i]) is TakeCard,
            all_calm(old(self).changes@) ==> final(self).reactions@ == old(self).reactions@,
            old(self).changes@.len() == 0 ==> r.0 == play && final(self).game_state == old(self).game_state,
    {
        assert(self.reactions@ + Seq::<Reaction>::empty() =~= self.reactions@);
        let ghost mut log = Seq::<EntityChange>::empty();
        let mut rest = play;
        let mut k: usize = 0;
        while k < self.changes.len()
            invariant
                self.running(),
                k <= self.changes@.len(),
                self.changes@ == old(self).changes@,
                self.player_id == old(self).player_id,
                self.player_map == old(self).player_map,
                self.animations@ == old(self).animations@,
                self.game_state.spatial_hash.size == old(self).game_state.spatial_hash.size,
                self.game_state.id_allocator == old(self).game_state.id_allocator,
                log == resolved(
                    old(self).game_state.entity_store@,
                    old(self).game_state.spatial_hash.size,
                    old(self).changes@.take(k as int),
                    (u64::MAX - old(self).game_state.count) as nat,
                ),
                self.game_state.entity_store@ == old(self).game_state.entity_store@.replay(log),
                self.game_state.count == old(self).game_state.count + log.len(),
                stamps_follow(
                    self.game_state.spatial_hash,
                    old(self).game_state.spatial_hash,
                    old(self).game_state.entity_store@,
                    log,
                    old(self).game_state.count as int,
                ),
                self.card_state.hand.capacity == old(self).card_state.hand.capacity,
                log.len() == 0 ==> rest == play && self.game_state == old(self).game_state
                    && self.reactions@ == old(self).reactions@,
                log.len() > 0 ==> rest is None,
                rest is Some ==> rest == play,
                rest == play ==> self.card_state == old(self).card_state && self.input_state
                    == old(self).input_state,
                play matches Some(p) ==> p.index < old(self).card_state.hand.cards@.len() && old(self).card_state.hand.cards@[p.index as int] == p.card,
                play is Some && rest is None ==> {
                    &&& self.input_state == InputState::WaitingForCardSelection
                    &&& self.card_state.hand.cards@ == filled_hand(
                        old(self).card_state.deck.cards@,
                        old(self).card_state.hand.cards@.remove(play->0.index as int),
                        old(self).card_state.hand.capacity as int,
                    )
                    &&& self.card_state.deck.cards@ == filled_deck(
                        old(self).card_state.deck.cards@,
                        old(self).card_state.hand.cards@.remove(play->0.index as int),
                        old(self).card_state.hand.capacity as int,
                    )
                },
                self.reactions@ == old(self).reactions@ + emitted(
                    old(self).game_state.entity_store@,
                    old(self).game_state.spatial_hash.size,
                    old(self).changes@.take(k as int),
                    (u64::MAX - old(self).game_state.count) as nat,
                ),
                self.reactions@.len() >= old(self).reactions@.len(),
                self.reactions@.take(old(self).reactions@.len() as int) == old(self).reactions@,
                forall|i: int|
                    old(self).reactions@.len() <= i < self.reactions@.len() ==> (
                    #[trigger] self.reactions@[i]) is TakeCard,
                all_calm(old(self).changes@) ==> self.reactions@ == old(self).reactions@,
                k == 0 ==> rest == play && self.game_state == old(self).game_state,
            decreases self.changes@.len() - k,
        {
            let change = self.changes[k];
            let ghost before = self.reactions@;
            assert(old(self).changes@.take(k + 1).drop_last() =~= old(self).changes@.take(k as int));
            let mut accepted = false;
            if self.game_state.count < u64::MAX {
                accepted =
                policy::check(
                    &change,
                    &self.game_state.entity_store,
                    &self.game_state.spatial_hash,
                    &mut self.reactions,
                );
                proof {
                    let taken = pickups(
                        change,
                        self.game_state.entity_store@,
                        self.game_state.spatial_hash.size,
                    );
                    let so_far = emitted(
                        old(self).game_state.entity_store@,
                        old(self).game_state.spatial_hash.size,
                        old(self).changes@.take(k as int),
                        (u64::MAX - old(self).game_state.count) as nat,
                    );
                    assert(self.reactions@ =~= old(self).reactions@ + (so_far + taken));
                    assert(self.reactions@.take(old(self).reactions@.len() as int) =~= before.take(
                        old(self).reactions@.len() as int,
                    ));
                    assert forall|i: int|
                        old(self).reactions@.len() <= i < before.len() implies (
                    #[trigger] self.reactions@[i]) is TakeCard by {
                        assert(self.reactions@[i] == before[i]);
                    }
                    if all_calm(old(self).changes@) {
                        assert(calm(old(self).changes@[k as int]));
                    }
                    if all_calm(old(self).changes@) || !accepted {
                        lemma_removals_of_none(self.game_state.entity_store@);
                        assert(self.reactions@ =~= before);
                    }
                }
            }
            if accepted {
                if let Some(p) = rest {
                    let _ = self.card_state.hand.remove_card(p.index);
                    self.card_state.fill_hand();
                    self.input_state = InputState::WaitingForCardSelection;
                    rest = None;
                }
                let ghost table_before = self.game_state.spatial_hash;
                let ghost log_before = log;
                proof {
                    crate::entity_store::lemma_replay_push(
                        old(self).game_state.entity_store@,
                        log,
                        change,
                    );
                    log = log.push(change);
                }
                self.game_state.commit(change);
                proof {
                    assert(log.drop_last() =~= log_before);
                    assert forall|coord: Position|
                        old(self).game_state.spatial_hash.size.contains(coord) implies (
                    #[trigger] self.game_state.spatial_hash.spec_cell(coord)).last_updated
                        == crate::spatial_hash::stamp_after(
                        old(self).game_state.entity_store@,
                        log,
                        old(self).game_state.count as int,
                        coord,
                        old(self).game_state.spatial_hash.spec_cell(coord).last_updated as int,
                    ) by {
                        assert(table_before.spec_cell(coord).last_updated
                            == crate::spatial_hash::stamp_after(
                            old(self).game_state.entity_store@,
                            log_before,
                            old(self).game_state.count as int,
                            coord,
                            old(self).game_state.spatial_hash.spec_cell(coord).last_updated as int,
                        ));
                    }
                }
            }
            k = k + 1;
        }
        assert(old(self).changes@.take(k as int) =~= old(self).changes@);
        self.changes.clear();
        (rest, Ghost(log))
    }

    /// Dispatches each pending reaction in turn: a card taken goes to
    /// the deck, and the entity that carried it is to be deleted; an
    /// entity removed is to be deleted; an animation starts to run; a
    /// change joins the pending changes.
    fn drain_reactions(&mut self)
        requires
            old(self).running(),
        ensures
            final(self).running(),
            final(self).reactions@.len() == 0,
            final(self).player_id == old(self).player_id,
            final(self).player_map == old(self).player_map,
            final(self).game_state == old(self).game_state,
            final(self).input_state == old(self).input_state,
            final(self).card_state.hand == old(self).card_state.hand,
            final(self).changes@ == old(self).changes@ + asked_by_all(
                old(self).game_state.entity_store@,
                old(self).reactions@,
            ),
            final(self).changes@.len() >= old(self).changes@.len(),
            final(self).changes@.take(old(self).changes@.len() as int) == old(self).changes@,
            no_entity_change(old(self).reactions@) ==> forall|i: int|
                old(self).changes@.len() <= i < final(self).changes@.len() ==> calm(
                    #[trigger] final(self).changes@[i],
                ),
            no_take_card(old(self).reactions@) ==> final(self).card_state == old(self).card_state,
            final(self).card_state.deck.cards@.len() == old(self).card_state.deck.cards@.len()
                + count_takes(old(self).reactions@),
            final(self).card_state.deck.cards@.to_multiset() == old(self).card_state.deck.cards@.to_multiset().add(taken(old(self).reactions@)),
            final(self).animations@ == old(self).animations@ + started(old(self).reactions@),
            old(self).reactions@.len() == 0 ==> final(self).changes@ == old(self).changes@
                && final(self).animations@ == old(self).animations@,
    {
        let mut k: usize = 0;
        assert(self.animations@ + started(self.reactions@.take(0)) =~= self.animations@);
        assert(self.changes@ + asked_by_all(
            self.game_state.entity_store@,
            self.reactions@.take(0),
        ) =~= self.changes@);
        assert(self.card_state.deck.cards@.to_multiset().add(taken(self.reactions@.take(0)))
            =~= self.card_state.deck.cards@.to_multiset());
        while k < self.reactions.len()
            invariant
                self.running(),
                k <= self.reactions@.len(),
                self.reactions@ == old(self).reactions@,
                self.player_map == old(self).player_map,
                self.changes@ == old(self).changes@ + asked_by_all(
                    old(self).game_state.entity_store@,
                    old(self).reactions@.take(k as int),
                ),
                self.player_id == old(self).player_id,
                self.game_state == old(self).game_state,
                self.input_state == old(self).input_state,
                self.card_state.hand == old(self).card_state.hand,
                self.changes@.len() >= old(self).changes@.len(),
                self.changes@.take(old(self).changes@.len() as int) == old(self).changes@,
                no_entity_change(old(self).reactions@) ==> forall|i: int|
                    old(self).changes@.len() <= i < self.changes@.len() ==> calm(
                        #[trigger] self.changes@[i],
                    ),
                no_take_card(old(self).reactions@) ==> self.card_state == old(self).card_state,
                self.card_state.deck.cards@.len() == old(self).card_state.deck.cards@.len()
                    + count_takes(old(self).reactions@.take(k as int)),
                self.card_state.deck.cards@.to_multiset() == old(self).card_state.deck.cards@.to_multiset().add(
                    taken(old(self).reactions@.take(k as int)),
                ),
                self.animations@ == old(self).animations@ + started(
                    old(self).reactions@.take(k as int),
                ),
                k == 0 ==> self.changes@ == old(self).changes@ && self.animations@ == old(self).animations@,
            decreases self.reactions@.len() - k,
        {
            let reaction = self.reactions[k];
            let ghost before = self.changes@;
            proof {
                let sofar = old(self).reactions@.take(k as int);
                let next = old(self).reactions@.take(k + 1);
                assert(next.drop_last() =~= sofar);
                assert(next.last() == reaction);
                let tail = match reaction {
                    Reaction::StartAnimation(animation) => seq![animation],
                    _ => Seq::<Animation>::empty(),
                };
                assert((old(self).animations@ + started(sofar)) + tail =~= old(self).animations@
                    + (started(sofar) + tail));
                let view = self.game_state.entity_store@;
                assert forall|id: EntityId|
                    #[trigger] self.game_state.entity_components.flags_of(id) == flags_in(
                        view,
                        id,
                    ) by {
                    let f = self.game_state.entity_components.flags_of(id);
                    assert(f.spec_get(ComponentType::Coord) == view.holds(id, ComponentType::Coord));
                    assert(f.spec_get(ComponentType::Solid) == view.holds(id, ComponentType::Solid));
                    assert(f.spec_get(ComponentType::Tile) == view.holds(id, ComponentType::Tile));
                    assert(f.spec_get(ComponentType::Player) == view.holds(
                        id,
                        ComponentType::Player,
                    ));
                    assert(f.spec_get(ComponentType::Card) == view.holds(id, ComponentType::Card));
                    assert(f.spec_get(ComponentType::Npc) == view.holds(id, ComponentType::Npc));
                }
                assert((old(self).changes@ + asked_by_all(view, sofar)) + asked_by(view, reaction)
                    =~= old(self).changes@ + (asked_by_all(view, sofar) + asked_by(
                    view,
                    reaction,
                )));
            }
            match reaction {
                Reaction::TakeCard(entity_id, card) => {
                    self.card_state.deck.add_random(card, &mut self.rng);
                    self.game_state.delete_entity(entity_id, &mut self.changes);
                },
                Reaction::RemoveEntity(entity_id) => {
                    self.game_state.delete_entity(entity_id, &mut self.changes);
                },
                Reaction::StartAnimation(animation) => {
                    self.animations.push(animation);
                    assert(self.changes@ =~= before + Seq::<EntityChange>::empty());
                },
                Reaction::EntityChange(change) => {
                    self.changes.push(change);
                    assert(self.changes@ =~= before + seq![change]);
                },
            }
            proof {
                let deck0 = old(self).card_state.deck.cards@.to_multiset();
                let so_far = taken(old(self).reactions@.take(k as int));
                match reaction {
                    Reaction::TakeCard(_, card) => {
                        assert(deck0.add(so_far).insert(card) =~= deck0.add(so_far.insert(card)));
                    },
                    _ => {},
                }
                assert(self.changes@.take(old(self).changes@.len() as int) =~= before.take(
                    old(self).changes@.len() as int,
                ));
                if no_entity_change(old(self).reactions@) {
                    assert(!(old(self).reactions@[k as int] is EntityChange));
                    assert forall|i: int|
                        old(self).changes@.len() <= i < self.changes@.len() implies calm(
                        #[trigger] self.changes@[i],
                    ) by {
                        if i < before.len() {
                            assert(self.changes@[i] == before[i]);
                        }
                    }
                }
                if no_take_card(old(self).reactions@) {
                    assert(!(old(self).reactions@[k as int] is TakeCard));
                }
            }
            k = k + 1;
        }
        assert(old(self).reactions@.take(k as int) =~= old(self).reactions@);
        self.reactions.clear();
    }

    /// What the actors propose when the turn is theirs, the distances to
    /// the player being `costs`: each actor its move, by increasing
    /// identifier; nothing where the player is on no cell of the grid.
    pub open spec fn spec_moves(
        view: StoreView,
        size: Size,
        player_id: EntityId,
        costs: Map<(int, int), nat>,
    ) -> Seq<EntityChange> {
        match view.coord_of(player_id) {
            Some(coord) => if size.contains(coord) {
                actor_moves(view, size, costs, sorted_ids(view.npc))
            } else {
                Seq::empty()
            },
            None => Seq::empty(),
        }
    }

    /// Lets every actor that is not the player decide its move: the
    /// distances to the player are worked out once, and each actor, by
    /// increasing identifier, proposes its step. Nothing happens where
    /// the player is on no cell of the grid.
    fn run_actors(&mut self)
        requires
            old(self).running(),
        ensures
            final(self).running(),
            final(self).player_id == old(self).player_id,
            final(self).game_state == old(self).game_state,
            final(self).input_state == old(self).input_state,
            final(self).card_state == old(self).card_state,
            final(self).animations == old(self).animations,
            final(self).reactions == old(self).reactions,
            final(self).changes@ == old(self).changes@ + Self::spec_moves(
                old(self).game_state.entity_store@,
                old(self).game_state.spatial_hash.size,
                old(self).player_id,
                distance_costs(final(self).player_map),
            ),
            old(self).game_state.entity_store@.coord.contains_key(old(self).player_id) && old(self).game_state.spatial_hash.size.contains(
                old(self).game_state.entity_store@.coord[old(self).player_id],
            ) ==> is_distance_field(
                distance_costs(final(self).player_map),
                solid_cells_in(
                    old(self).game_state.entity_store@,
                    old(self).game_state.spatial_hash.size,
                ),
                old(self).game_state.entity_store@.coord[old(self).player_id],
            ),
    {
        let ghost view = self.game_state.entity_store@;
        let ghost size = self.game_state.spatial_hash.size;
        let player_coord = match self.game_state.entity_store.get_coord(self.player_id) {
            Some(coord) => coord,
            None => {
                assert(self.changes@ =~= old(self).changes@ + Seq::<EntityChange>::empty());
                return ;
            },
        };
        if !self.game_state.spatial_hash.size.is_valid(player_coord) {
            assert(self.changes@ =~= old(self).changes@ + Seq::<EntityChange>::empty());
            return ;
        }
        proof {
            lemma_cells_agree(self.game_state.spatial_hash, view);
        }
        compute_player_map(
            player_coord,
            &self.game_state.spatial_hash,
            &mut self.bfs,
            &mut self.player_map,
        );
        let ghost costs = distance_costs(self.player_map);
        let actors = members_of(&self.game_state.entity_store.npc);
        proof {
            crate::entity_store::lemma_is_sorted_ids(actors@);
            assert(self.changes@ =~= old(self).changes@ + actor_moves(
                view,
                size,
                costs,
                actors@.take(0),
            ));
        }
        let mut k: usize = 0;
        while k < actors.len()
            invariant
                self.running(),
                k <= actors@.len(),
                self.player_id == old(self).player_id,
                self.game_state == old(self).game_state,
                self.input_state == old(self).input_state,
                self.card_state == old(self).card_state,
                self.animations == old(self).animations,
                self.reactions == old(self).reactions,
                view == self.game_state.entity_store@,
                size == self.game_state.spatial_hash.size,
                costs == distance_costs(self.player_map),
                solid_or_occupied(self.game_state.spatial_hash) == solid_or_occupied_in(view, size),
                self.changes@ == old(self).changes@ + actor_moves(
                    view,
                    size,
                    costs,
                    actors@.take(k as int),
                ),
            decreases actors@.len() - k,
        {
            let id: EntityId = actors[k];
            let ghost before = self.changes@;
            let ghost so_far = actor_moves(view, size, costs, actors@.take(k as int));
            proof {
                assert(actors@.take(k + 1).drop_last() =~= actors@.take(k as int));
                assert(actors@.take(k + 1).last() == id);
            }
            let mut moved = false;
            if let Some(coord) = self.game_state.entity_store.get_coord(id) {
                if let Some(cost) = cost_at(&self.player_map, coord) {
                    if cost > 0 && self.game_state.spatial_hash.size.is_valid(coord) {
                        act(
                            id,
                            &self.game_state.entity_store,
                            &self.game_state.spatial_hash,
                            &self.player_map,
                            &mut self.bfs,
                            &mut self.path,
                            &mut self.changes,
                        );
                        moved = true;
                    }
                }
            }
            proof {
                if !moved {
                    assert(self.changes@ =~= before + Seq::<EntityChange>::empty());
                }
                assert(self.changes@ =~= old(self).changes@ + (so_far + actor_move(
                    view,
                    size,
                    costs,
                    id,
                )));
            }
            k = k + 1;
        }
        assert(actors@.take(k as int) =~= actors@);
    }

    /// Dispatches the pending reactions and validates the changes they
    /// ask for, in turn, until nothing is pending. Returns the changes
    /// that were committed.
    ///
    /// None of the pending reactions may carry a change of its own:
    /// then the changes asked for are all removals, validating them
    /// emits nothing, and one turn is enough.
    fn resolve(&mut self) -> (r: Ghost<Seq<EntityChange>>)
        requires
            old(self).running(),
            old(self).changes@.len() == 0,
            no_entity_change(old(self).reactions@),
        ensures
            final(self).wf(),
            final(self).player_id == old(self).player_id,
            final(self).player_map == old(self).player_map,
            final(self).game_state.spatial_hash.size == old(self).game_state.spatial_hash.size,
            final(self).game_state.id_allocator == old(self).game_state.id_allocator,
            final(self).input_state == old(self).input_state,
            final(self).card_state.hand == old(self).card_state.hand,
            final(self).animations@ == old(self).animations@ + started(old(self).reactions@),
            r@ == resolved(
                old(self).game_state.entity_store@,
                old(self).game_state.spatial_hash.size,
                asked_by_all(old(self).game_state.entity_store@, old(self).reactions@),
                (u64::MAX - old(self).game_state.count) as nat,
            ),
            final(self).game_state.entity_store@ == old(self).game_state.entity_store@.replay(r@),
            final(self).game_state.count == old(self).game_state.count + r@.len(),
            stamps_follow(
                final(self).game_state.spatial_hash,
                old(self).game_state.spatial_hash,
                old(self).game_state.entity_store@,
                r@,
                old(self).game_state.count as int,
            ),
            r@.len() == 0 ==> final(self).game_state == old(self).game_state,
            no_take_card(old(self).reactions@) ==> final(self).card_state == old(self).card_state,
            final(self).card_state.deck.cards@.len() == old(self).card_state.deck.cards@.len()
                + count_takes(old(self).reactions@),
            final(self).card_state.deck.cards@.to_multiset() == old(self).card_state.deck.cards@.to_multiset().add(taken(old(self).reactions@)),
    {
        let ghost view = self.game_state.entity_store@;
        let ghost size = self.game_state.spatial_hash.size;
        let ghost headroom = (u64::MAX - self.game_state.count) as nat;
        let ghost mut log = Seq::<EntityChange>::empty();
        let ghost mut round: int = 0;
        proof {
            lemma_asked_calm(view, self.reactions@);
            lemma_calm_emits_nothing(view, size, asked_by_all(view, self.reactions@), headroom);
            if self.reactions@.len() == 0 {
                assert(started(self.reactions@) =~= Seq::<Animation>::empty());
                assert(self.animations@ + started(self.reactions@) =~= self.animations@);
            }
        }
        while self.reactions.len() > 0
            invariant
                self.running(),
                self.changes@.len() == 0,
                0 <= round <= 1,
                round == 0 ==> *self == *old(self) && log.len() == 0,
                round == 1 ==> {
                    &&& self.reactions@.len() == 0
                    &&& self.player_id == old(self).player_id
                    &&& self.player_map == old(self).player_map
                    &&& self.game_state.spatial_hash.size == size
                    &&& self.game_state.id_allocator == old(self).game_state.id_allocator
                    &&& self.input_state == old(self).input_state
                    &&& self.card_state.hand == old(self).card_state.hand
                    &&& self.animations@ == old(self).animations@ + started(old(self).reactions@)
                    &&& log == resolved(
                        view,
                        size,
                        asked_by_all(view, old(self).reactions@),
                        headroom,
                    )
                    &&& self.game_state.entity_store@ == view.replay(log)
                    &&& self.game_state.count == old(self).game_state.count + log.len()
                    &&& stamps_follow(
                        self.game_state.spatial_hash,
                        old(self).game_state.spatial_hash,
                        view,
                        log,
                        old(self).game_state.count as int,
                    )
                    &&& log.len() == 0 ==> self.game_state == old(self).game_state
                    &&& no_take_card(old(self).reactions@) ==> self.card_state == old(self).card_state
                    &&& self.card_state.deck.cards@.len() == old(self).card_state.deck.cards@.len()
                        + count_takes(old(self).reactions@)
                    &&& self.card_state.deck.cards@.to_multiset() == old(self).card_state.deck.cards@.to_multiset().add(taken(old(self).reactions@))
                },
                view == old(self).game_state.entity_store@,
                size == old(self).game_state.spatial_hash.size,
                headroom == (u64::MAX - old(self).game_state.count) as nat,
                no_entity_change(old(self).reactions@),
                emitted(view, size, asked_by_all(view, old(self).reactions@), headroom)
                    == Seq::<Reaction>::empty(),
            decreases 1 - round,
        {
            self.drain_reactions();
            assert(self.changes@ =~= asked_by_all(view, old(self).reactions@));
            let (_, Ghost(committed)) = self.drain_changes(None);
            proof {
                assert(self.reactions@ =~= Seq::<Reaction>::empty());
                log = committed;
                round = 1;
            }
        }
        proof {
            if round == 0 {
                assert(old(self).reactions@.len() == 0);
                assert(self.card_state.deck.cards@.to_multiset().add(taken(old(self).reactions@))
                    =~= self.card_state.deck.cards@.to_multiset());
                assert(asked_by_all(view, old(self).reactions@) =~= Seq::<EntityChange>::empty());
                assert(resolved(view, size, Seq::<EntityChange>::empty(), headroom) =~= Seq::<
                    EntityChange,
                >::empty());
                assert(log =~= Seq::<EntityChange>::empty());
                assert(view.replay(log) == view);
            }
        }
        Ghost(log)
    }

    /// The changes that the card which `inputs` ask to play proposes.
    /// None where animations are running or no card is asked for.
    pub open spec fn spec_proposed(&self, inputs: Seq<Input>) -> Seq<EntityChange> {
        let reading = spec_interpret(self.card_state.hand.cards@, self.input_state, inputs);
        if self.animations@.len() == 0 && reading.play is Some {
            reading.play->0.card.spec_changes(
                self.game_state.entity_store@,
                self.player_id,
                reading.play->0.direction,
                self.game_state.id_allocator,
            )
        } else {
            Seq::empty()
        }
    }

    /// The reactions that a tick starts with: what stepping the running
    /// animations emits, or else what the card asks for which `inputs`
    /// ask to play.
    pub open spec fn spec_first_reactions(&self, inputs: Seq<Input>, period_millis: u64) -> Seq<
        Reaction,
    > {
        let reading = spec_interpret(self.card_state.hand.cards@, self.input_state, inputs);
        if self.animations@.len() > 0 {
            spec_step_all(self.animations@, period_millis)
        } else if reading.play is Some {
            reading.play->0.card.spec_reactions(
                self.game_state.entity_store@,
                self.player_id,
                reading.play->0.direction,
                self.game_state.id_allocator,
            )
        } else {
            Seq::empty()
        }
    }

    /// Those of the changes that the played card proposes which the
    /// rules accept: the first changes that a tick commits.
    pub open spec fn spec_first_commits(&self, inputs: Seq<Input>) -> Seq<EntityChange> {
        resolved(
            self.game_state.entity_store@,
            self.game_state.spatial_hash.size,
            self.spec_proposed(inputs),
            (u64::MAX - self.game_state.count) as nat,
        )
    }

    /// The changes that a tick commits next: those which the rules
    /// accept of the changes asked for by the reactions that the tick
    /// starts with and by the reactions that validating the card's
    /// changes emits.
    pub open spec fn spec_second_commits(&self, inputs: Seq<Input>, period_millis: u64) -> Seq<
        EntityChange,
    > {
        let first = self.spec_first_commits(inputs);
        let headroom = (u64::MAX - self.game_state.count) as nat;
        let view = self.game_state.entity_store@.replay(first);
        let reactions = self.spec_first_reactions(inputs, period_millis) + emitted(
            self.game_state.entity_store@,
            self.game_state.spatial_hash.size,
            self.spec_proposed(inputs),
            headroom,
        );
        resolved(
            view,
            self.game_state.spatial_hash.size,
            asked_by_all(view, reactions),
            (headroom - first.len()) as nat,
        )
    }

    /// The component tables once a tick has committed its first and its
    /// second changes, which is before the actors make their moves.
    pub open spec fn spec_settled(&self, inputs: Seq<Input>, period_millis: u64) -> StoreView {
        self.game_state.entity_store@.replay(self.spec_first_commits(inputs)).replay(
            self.spec_second_commits(inputs, period_millis),
        )
    }

    /// The changes that a tick commits once the turn has gone to the
    /// actors, the distances to the player being `costs`: those which the
    /// rules accept of the moves that the actors propose, and then of the
    /// changes asked for by the reactions that validating those moves
    /// emits.
    pub open spec fn spec_actor_commits(
        &self,
        inputs: Seq<Input>,
        period_millis: u64,
        costs: Map<(int, int), nat>,
    ) -> Seq<EntityChange> {
        let settled = self.spec_settled(inputs, period_millis);
        let size = self.game_state.spatial_hash.size;
        let headroom = (u64::MAX - self.game_state.count - self.spec_first_commits(inputs).len()
            - self.spec_second_commits(inputs, period_millis).len()) as nat;
        let moves = Self::spec_moves(settled, size, self.player_id, costs);
        let third = resolved(settled, size, moves, headroom);
        let view = settled.replay(third);
        third + resolved(
            view,
            size,
            asked_by_all(view, emitted(settled, size, moves, headroom)),
            (headroom - third.len()) as nat,
        )
    }

    /// The changes that a tick commits after its first and second
    /// changes: what the actors' turn commits, where a card has been
    /// played, and else nothing.
    pub open spec fn spec_last_commits(
        &self,
        inputs: Seq<Input>,
        period_millis: u64,
        costs: Map<(int, int), nat>,
    ) -> Seq<EntityChange> {
        if self.spec_first_commits(inputs).len() > 0 {
            self.spec_actor_commits(inputs, period_millis, costs)
        } else {
            Seq::empty()
        }
    }

    /// All the changes that a tick commits, in order.
    pub open spec fn spec_commits(
        &self,
        inputs: Seq<Input>,
        period_millis: u64,
        costs: Map<(int, int), nat>,
    ) -> Seq<EntityChange> {
        self.spec_first_commits(inputs) + self.spec_second_commits(inputs, period_millis)
            + self.spec_last_commits(inputs, period_millis, costs)
    }

    /// The deck as the play of a tick leaves it: what the hand leaves of
    /// it after filling up, where a card has been played, and else the
    /// deck as it was.
    pub open spec fn spec_deck_base(&self, inputs: Seq<Input>) -> Seq<Card> {
        let reading = spec_interpret(self.card_state.hand.cards@, self.input_state, inputs);
        if self.spec_first_commits(inputs).len() > 0 {
            filled_deck(
                self.card_state.deck.cards@,
                self.card_state.hand.cards@.remove(reading.play->0.index as int),
                self.card_state.hand.capacity as int,
            )
        } else {
            self.card_state.deck.cards@
        }
    }

    /// The reactions that a tick dispatches first: those it starts with,
    /// and those that validating the card's changes emits.
    pub open spec fn spec_early_reactions(&self, inputs: Seq<Input>, period_millis: u64) -> Seq<
        Reaction,
    > {
        self.spec_first_reactions(inputs, period_millis) + emitted(
            self.game_state.entity_store@,
            self.game_state.spatial_hash.size,
            self.spec_proposed(inputs),
            (u64::MAX - self.game_state.count) as nat,
        )
    }

    /// The reactions that a tick dispatches in the actors' turn: those
    /// that validating their moves emits; none where no card has been
    /// played.
    pub open spec fn spec_late_reactions(
        &self,
        inputs: Seq<Input>,
        period_millis: u64,
        costs: Map<(int, int), nat>,
    ) -> Seq<Reaction> {
        if self.spec_first_commits(inputs).len() > 0 {
            let settled = self.spec_settled(inputs, period_millis);
            let size = self.game_state.spatial_hash.size;
            let left = (u64::MAX - self.game_state.count - self.spec_first_commits(inputs).len()
                - self.spec_second_commits(inputs, period_millis).len()) as nat;
            emitted(settled, size, Self::spec_moves(settled, size, self.player_id, costs), left)
        } else {
            Seq::empty()
        }
    }

    /// How many cards the deck holds after a tick: what the hand leaves
    /// of it where a card has been played, and one more for each card
    /// that is taken.
    pub open spec fn spec_deck_len(
        &self,
        inputs: Seq<Input>,
        period_millis: u64,
        costs: Map<(int, int), nat>,
    ) -> nat {
        let reading = spec_interpret(self.card_state.hand.cards@, self.input_state, inputs);
        let first = self.spec_first_commits(inputs);
        let headroom = (u64::MAX - self.game_state.count) as nat;
        let reactions = self.spec_first_reactions(inputs, period_millis) + emitted(
            self.game_state.entity_store@,
            self.game_state.spatial_hash.size,
            self.spec_proposed(inputs),
            headroom,
        );
        if first.len() > 0 {
            let settled = self.spec_settled(inputs, period_millis);
            let size = self.game_state.spatial_hash.size;
            let left = (headroom - first.len() - self.spec_second_commits(
                inputs,
                period_millis,
            ).len()) as nat;
            filled_deck(
                self.card_state.deck.cards@,
                self.card_state.hand.cards@.remove(reading.play->0.index as int),
                self.card_state.hand.capacity as int,
            ).len() + count_takes(reactions) + count_takes(
                emitted(settled, size, Self::spec_moves(settled, size, self.player_id, costs), left),
            )
        } else {
            self.card_state.deck.cards@.len() + count_takes(reactions)
        }
    }

    /// The first part of a tick: while animations run, they are stepped;
    /// otherwise the inputs are read and the card they ask to play is
    /// played. Leaves what is proposed and asked for pending, and returns
    /// the play.
    fn begin(&mut self, inputs: &Vec<Input>, period_millis: u64) -> (play: Option<Play>)
        requires
            old(self).wf(),
        ensures
            final(self).running(),
            final(self).player_id == old(self).player_id,
            final(self).player_map == old(self).player_map,
            final(self).card_state == old(self).card_state,
            final(self).game_state.entity_store == old(self).game_state.entity_store,
            final(self).game_state.spatial_hash == old(self).game_state.spatial_hash,
            final(self).game_state.entity_components == old(self).game_state.entity_components,
            final(self).game_state.count == old(self).game_state.count,
            final(self).changes@ == old(self).spec_proposed(inputs@),
            final(self).reactions@ == old(self).spec_first_reactions(inputs@, period_millis),
            no_entity_change(final(self).reactions@),
            final(self).animations@ == Seq::<Animation>::empty(),
            play matches Some(p) ==> p.index < final(self).card_state.hand.cards@.len() && final(self).card_state.hand.cards@[p.index as int] == p.card,
            old(self).animations@.len() > 0 ==> {
                &&& play is None
                &&& final(self).input_state == old(self).input_state
                &&& final(self).game_state.id_allocator == old(self).game_state.id_allocator
                &&& no_take_card(final(self).reactions@)
            },
            old(self).animations@.len() == 0 ==> ({
                let reading = spec_interpret(
                    old(self).card_state.hand.cards@,
                    old(self).input_state,
                    inputs@,
                );
                let trace = old(self).game_state.id_allocator.next;
                &&& play == reading.play
                &&& final(self).input_state == reading.input_state
                &&& if reading.play is Some && reading.play->0.card == Card::Punch
                    && Card::Punch.takes_effect(
                    old(self).game_state.entity_store@,
                    old(self).player_id,
                    reading.play->0.direction,
                    old(self).game_state.id_allocator,
                ) {
                    &&& started(final(self).reactions@) == seq![
                        Animation::RemoveEntity(trace, crate::card::PUNCH_MILLIS),
                    ]
                    &&& final(self).game_state.id_allocator.next == trace + 1
                } else {
                    &&& started(final(self).reactions@) == Seq::<Animation>::empty()
                    &&& final(self).game_state.id_allocator.next == trace
                }
            }),
    {
        let ghost view0 = self.game_state.entity_store@;
        let mut play: Option<Play> = None;
        if self.animations.len() == 0 {
            let reading = interpret(&self.card_state.hand.cards, self.input_state, inputs);
            self.input_state = reading.input_state;
            play = reading.play;
        } else {
            step_all(&mut self.animations, period_millis, &mut self.reactions);
        }
        if let Some(p) = play {
            p.card.play(
                self.player_id,
                &self.game_state.entity_store,
                p.direction,
                &mut self.game_state.id_allocator,
                &mut self.changes,
                &mut self.reactions,
            );
        }
        proof {
            let asked = old(self).spec_first_reactions(inputs@, period_millis);
            assert(self.changes@ =~= old(self).spec_proposed(inputs@));
            assert(self.reactions@ =~= asked);
            lemma_steps_carry_no_change(old(self).animations@, period_millis);
            assert(no_entity_change(asked)) by {
                if old(self).animations@.len() == 0 && play is Some {
                    lemma_play_carries_no_change(
                        play->0.card,
                        view0,
                        self.player_id,
                        play->0.direction,
                        old(self).game_state.id_allocator,
                    );
                }
            }
            if old(self).animations@.len() == 0 {
                if play is Some && play->0.card == Card::Punch && Card::Punch.takes_effect(
                    view0,
                    old(self).player_id,
                    play->0.direction,
                    old(self).game_state.id_allocator,
                ) {
                    lemma_punch_starts_one(
                        view0,
                        self.player_id,
                        play->0.direction,
                        old(self).game_state.id_allocator,
                    );
                } else {
                    assert(asked.len() == 0);
                    assert(started(asked) =~= Seq::<Animation>::empty());
                }
            } else {
                lemma_steps_take_no_card(old(self).animations@, period_millis);
            }
        }
        play
    }

    /// The second part of a tick: the changes that the card proposes are
    /// validated, and then what is pending is resolved. Tells whether
    /// the card was played, and returns the changes committed first and
    /// those committed after them.
    fn play_turn(&mut self, play: Option<Play>) -> (r: (
        bool,
        Ghost<Seq<EntityChange>>,
        Ghost<Seq<EntityChange>>,
    ))
        requires
            old(self).running(),
            no_entity_change(old(self).reactions@),
            play is None ==> old(self).changes@.len() == 0,
            play matches Some(p) ==> p.index < old(self).card_state.hand.cards@.len() && old(self).card_state.hand.cards@[p.index as int] == p.card,
        ensures
            final(self).wf(),
            final(self).player_id == old(self).player_id,
            final(self).player_map == old(self).player_map,
            final(self).game_state.spatial_hash.size == old(self).game_state.spatial_hash.size,
            final(self).game_state.id_allocator == old(self).game_state.id_allocator,
            final(self).card_state.hand.capacity == old(self).card_state.hand.capacity,
            r.0 == (r.1@.len() > 0),
            r.1@ == resolved(
                old(self).game_state.entity_store@,
                old(self).game_state.spatial_hash.size,
                old(self).changes@,
                (u64::MAX - old(self).game_state.count) as nat,
            ),
            r.2@ == resolved(
                old(self).game_state.entity_store@.replay(r.1@),
                old(self).game_state.spatial_hash.size,
                asked_by_all(
                    old(self).game_state.entity_store@.replay(r.1@),
                    old(self).reactions@ + emitted(
                        old(self).game_state.entity_store@,
                        old(self).game_state.spatial_hash.size,
                        old(self).changes@,
                        (u64::MAX - old(self).game_state.count) as nat,
                    ),
                ),
                (u64::MAX - old(self).game_state.count - r.1@.len()) as nat,
            ),
            final(self).game_state.entity_store@ == old(self).game_state.entity_store@.replay(
                r.1@,
            ).replay(r.2@),
            final(self).game_state.count == old(self).game_state.count + r.1@.len() + r.2@.len(),
            stamps_follow(
                final(self).game_state.spatial_hash,
                old(self).game_state.spatial_hash,
                old(self).game_state.entity_store@,
                r.1@ + r.2@,
                old(self).game_state.count as int,
            ),
            final(self).animations@ == old(self).animations@ + started(old(self).reactions@),
            r.0 ==> {
                &&& play is Some
                &&& final(self).input_state == InputState::WaitingForCardSelection
                &&& final(self).card_state.hand.cards@ == filled_hand(
                    old(self).card_state.deck.cards@,
                    old(self).card_state.hand.cards@.remove(play->0.index as int),
                    old(self).card_state.hand.capacity as int,
                )
            },
            !r.0 ==> {
                &&& final(self).input_state == old(self).input_state
                &&& final(self).card_state.hand == old(self).card_state.hand
            },
            ({
                let base = if r.0 {
                    filled_deck(
                        old(self).card_state.deck.cards@,
                        old(self).card_state.hand.cards@.remove(play->0.index as int),
                        old(self).card_state.hand.capacity as int,
                    )
                } else {
                    old(self).card_state.deck.cards@
                };
                let reactions = old(self).reactions@ + emitted(
                    old(self).game_state.entity_store@,
                    old(self).game_state.spatial_hash.size,
                    old(self).changes@,
                    (u64::MAX - old(self).game_state.count) as nat,
                );
                &&& final(self).card_state.deck.cards@.to_multiset() == base.to_multiset().add(
                    taken(reactions),
                )
                &&& final(self).card_state.deck.cards@.len() == base.len() + count_takes(reactions)
                &&& no_take_card(reactions) ==> final(self).card_state.deck.cards@ == base
            }),
            r.1@.len() == 0 && r.2@.len() == 0 ==> final(self).game_state == old(self).game_state,
            r.1@.len() == 0 && no_take_card(old(self).reactions@) ==> final(self).card_state == old(self).card_state,
    {
        let ghost view0 = self.game_state.entity_store@;
        let ghost table0 = self.game_state.spatial_hash;
        let ghost asked = self.reactions@;
        let (rest, Ghost(first)) = self.drain_changes(play);
        let played = play.is_some() && rest.is_none();
        let ghost table1 = self.game_state.spatial_hash;
        let ghost reactions1 = self.reactions@;
        proof {
            if play is None {
                assert(old(self).changes@ =~= Seq::<EntityChange>::empty());
                assert(first.len() == 0);
            }
            lemma_takes_start_none(asked, reactions1);
            assert(no_entity_change(reactions1)) by {
                assert forall|i: int| 0 <= i < reactions1.len() implies !((
                #[trigger] reactions1[i]) is EntityChange) by {
                    if i < asked.len() {
                        assert(reactions1[i] == reactions1.take(asked.len() as int)[i]);
                    }
                }
            }
            if first.len() == 0 {
                assert(reactions1 == asked);
            }
        }
        let Ghost(second) = self.resolve();
        proof {
            lemma_stamps_chain(
                table0,
                table1,
                self.game_state.spatial_hash,
                view0,
                first,
                second,
                old(self).game_state.count as int,
            );
        }
        (played, Ghost(first), Ghost(second))
    }

    /// The last part of a tick, where a card has been played: the actors
    /// propose their moves, the moves are validated, and what is pending
    /// is resolved. Returns the changes committed for the moves and those
    /// committed after them.
    fn actors_turn(&mut self) -> (r: (Ghost<Seq<EntityChange>>, Ghost<Seq<EntityChange>>))
        requires
            old(self).wf(),
        ensures
            final(self).wf(),
            final(self).player_id == old(self).player_id,
            final(self).game_state.spatial_hash.size == old(self).game_state.spatial_hash.size,
            final(self).game_state.id_allocator == old(self).game_state.id_allocator,
            final(self).input_state == old(self).input_state,
            final(self).card_state.hand == old(self).card_state.hand,
            final(self).animations@ == old(self).animations@,
            ({
                let view = old(self).game_state.entity_store@;
                let size = old(self).game_state.spatial_hash.size;
                let headroom = (u64::MAX - old(self).game_state.count) as nat;
                let moves = Self::spec_moves(
                    view,
                    size,
                    old(self).player_id,
                    distance_costs(final(self).player_map),
                );
                let reactions = emitted(view, size, moves, headroom);
                &&& r.0@ == resolved(view, size, moves, headroom)
                &&& r.1@ == resolved(
                    view.replay(r.0@),
                    size,
                    asked_by_all(view.replay(r.0@), reactions),
                    (headroom - r.0@.len()) as nat,
                )
                &&& final(self).card_state.deck.cards@.to_multiset() == old(self).card_state.deck.cards@.to_multiset().add(taken(reactions))
                &&& final(self).card_state.deck.cards@.len() == old(self).card_state.deck.cards@.len() + count_takes(reactions)
                &&& no_take_card(reactions) ==> final(self).card_state == old(self).card_state
            }),
            final(self).game_state.entity_store@ == old(self).game_state.entity_store@.replay(
                r.0@ + r.1@,
            ),
            final(self).game_state.count == old(self).game_state.count + r.0@.len() + r.1@.len(),
            stamps_follow(
                final(self).game_state.spatial_hash,
                old(self).game_state.spatial_hash,
                old(self).game_state.entity_store@,
                r.0@ + r.1@,
                old(self).game_state.count as int,
            ),
            old(self).game_state.entity_store@.coord.contains_key(old(self).player_id) && old(self).game_state.spatial_hash.size.contains(
                old(self).game_state.entity_store@.coord[old(self).player_id],
            ) ==> is_distance_field(
                distance_costs(final(self).player_map),
                solid_cells_in(
                    old(self).game_state.entity_store@,
                    old(self).game_state.spatial_hash.size,
                ),
                old(self).game_state.entity_store@.coord[old(self).player_id],
            ),
    {
        let ghost view = self.game_state.entity_store@;
        let ghost table = self.game_state.spatial_hash;
        self.run_actors();
        assert(self.changes@ =~= Self::spec_moves(
            view,
            self.game_state.spatial_hash.size,
            self.player_id,
            distance_costs(self.player_map),
        ));
        let (_, Ghost(third)) = self.drain_changes(None);
        let ghost table3 = self.game_state.spatial_hash;
        let ghost reactions3 = self.reactions@;
        proof {
            assert(no_entity_change(reactions3));
            assert(reactions3.take(0) =~= Seq::<Reaction>::empty());
            lemma_takes_start_none(Seq::<Reaction>::empty(), reactions3);
            assert(started(Seq::<Reaction>::empty()) =~= Seq::<Animation>::empty());
            assert(self.animations@ + started(reactions3) =~= self.animations@);
            assert(reactions3 =~= emitted(
                view,
                self.game_state.spatial_hash.size,
                old(self).changes@ + Self::spec_moves(
                    view,
                    self.game_state.spatial_hash.size,
                    self.player_id,
                    distance_costs(self.player_map),
                ),
                (u64::MAX - old(self).game_state.count) as nat,
            ));
        }
        let Ghost(fourth) = self.resolve();
        proof {
            crate::entity_store::lemma_replay_concat(view, third, fourth);
            lemma_stamps_chain(
                table,
                table3,
                self.game_state.spatial_hash,
                view,
                third,
                fourth,
                old(self).game_state.count as int,
            );
        }
        (Ghost(third), Ghost(fourth))
    }

    /// Moves the game on by one tick of `period_millis` milliseconds.
    ///
    /// While animations run, they are stepped and the inputs are not
    /// read. Otherwise the inputs are read in order, and a card that
    /// they ask to play is played for the player. The changes that the
    /// card proposes are validated first: if one of them is accepted,
    /// the card leaves the hand, the hand is filled up again, the input
    /// state is reset and the turn goes to the actors; if none is, the
    /// card stays picked. Then reactions are dispatched and the changes
    /// they ask for are validated, in turn, until nothing is pending.
    /// After that the actors, if the turn is theirs, propose their
    /// moves, which are resolved in the same way. The tick reports that
    /// the game is over when it leaves the hand empty.
    pub fn tick(&mut self, inputs: Vec<Input>, period_millis: u64) -> (meta: Option<Meta>)
        requires
            old(self).wf(),
        ensures
            final(self).wf(),
            final(self).player_id == old(self).player_id,
            final(self).game_state.spatial_hash.size == old(self).game_state.spatial_hash.size,
            final(self).card_state.hand.capacity == old(self).card_state.hand.capacity,
            meta == (if final(self).card_state.hand.cards@.len() == 0 {
                Some(Meta::GameOver)
            } else {
                None
            }),
            final(self).game_state.entity_store@ == old(self).spec_settled(
                inputs@,
                period_millis,
            ).replay(
                old(self).spec_last_commits(
                    inputs@,
                    period_millis,
                    distance_costs(final(self).player_map),
                ),
            ),
            final(self).game_state.count == old(self).game_state.count + old(self).spec_first_commits(inputs@).len() + old(self).spec_second_commits(
                inputs@,
                period_millis,
            ).len() + old(self).spec_last_commits(
                inputs@,
                period_millis,
                distance_costs(final(self).player_map),
            ).len(),
            old(self).spec_first_commits(inputs@).len() > 0 && old(self).spec_settled(
                inputs@,
                period_millis,
            ).coord.contains_key(old(self).player_id) && old(self).game_state.spatial_hash.size.contains(
                old(self).spec_settled(inputs@, period_millis).coord[old(self).player_id],
            ) ==> is_distance_field(
                distance_costs(final(self).player_map),
                solid_cells_in(
                    old(self).spec_settled(inputs@, period_millis),
                    old(self).game_state.spatial_hash.size,
                ),
                old(self).spec_settled(inputs@, period_millis).coord[old(self).player_id],
            ),
            old(self).spec_first_commits(inputs@).len() == 0 ==> final(self).player_map == old(self).player_map,
            final(self).game_state.entity_store@ == old(self).game_state.entity_store@.replay(
                old(self).spec_commits(
                    inputs@,
                    period_millis,
                    distance_costs(final(self).player_map),
                ),
            ),
            stamps_follow(
                final(self).game_state.spatial_hash,
                old(self).game_state.spatial_hash,
                old(self).game_state.entity_store@,
                old(self).spec_commits(
                    inputs@,
                    period_millis,
                    distance_costs(final(self).player_map),
                ),
                old(self).game_state.count as int,
            ),
            final(self).card_state.deck.cards@.len() == old(self).spec_deck_len(
                inputs@,
                period_millis,
                distance_costs(final(self).player_map),
            ),
            final(self).card_state.deck.cards@.to_multiset() == old(self).spec_deck_base(
                inputs@,
            ).to_multiset().add(taken(old(self).spec_early_reactions(inputs@, period_millis))).add(
                taken(
                    old(self).spec_late_reactions(
                        inputs@,
                        period_millis,
                        distance_costs(final(self).player_map),
                    ),
                ),
            ),
            no_take_card(old(self).spec_early_reactions(inputs@, period_millis)) && no_take_card(
                old(self).spec_late_reactions(
                    inputs@,
                    period_millis,
                    distance_costs(final(self).player_map),
                ),
            ) ==> final(self).card_state.deck.cards@ == old(self).spec_deck_base(inputs@),
            old(self).animations@.len() > 0 ==> {
                &&& final(self).input_state == old(self).input_state
                &&& final(self).card_state == old(self).card_state
                &&& final(self).animations@ == started(
                    spec_step_all(old(self).animations@, period_millis),
                )
                &&& final(self).game_state.id_allocator == old(self).game_state.id_allocator
            },
            old(self).animations@.len() == 0 ==> ({
                let reading = spec_interpret(
                    old(self).card_state.hand.cards@,
                    old(self).input_state,
                    inputs@,
                );
                let trace = old(self).game_state.id_allocator.next;
                &&& if old(self).spec_first_commits(inputs@).len() > 0 {
                    &&& final(self).input_state == InputState::WaitingForCardSelection
                    &&& final(self).card_state.hand.cards@ == filled_hand(
                        old(self).card_state.deck.cards@,
                        old(self).card_state.hand.cards@.remove(reading.play->0.index as int),
                        old(self).card_state.hand.capacity as int,
                    )
                } else {
                    &&& final(self).input_state == reading.input_state
                    &&& final(self).card_state.hand == old(self).card_state.hand
                }
                &&& if reading.play is Some && reading.play->0.card == Card::Punch
                    && Card::Punch.takes_effect(
                    old(self).game_state.entity_store@,
                    old(self).player_id,
                    reading.play->0.direction,
                    old(self).game_state.id_allocator,
                ) {
                    &&& final(self).animations@ == seq![
                        Animation::RemoveEntity(trace, crate::card::PUNCH_MILLIS),
                    ]
                    &&& final(self).game_state.id_allocator.next == trace + 1
                } else {
                    &&& final(self).animations@ == Seq::<Animation>::empty()
                    &&& final(self).game_state.id_allocator.next == trace
                }
            }),
            inputs@.len() == 0 && old(self).animations@.len() == 0 ==> {
                &&& final(self).game_state == old(self).game_state
                &&& final(self).card_state == old(self).card_state
                &&& final(self).input_state == old(self).input_state
                &&& final(self).animations@ == old(self).animations@
            },
            old(self).spec_first_commits(inputs@).len() == 0 && no_take_card(
                old(self).spec_first_reactions(inputs@, period_millis),
            ) ==> final(self).card_state == old(self).card_state,
            old(self).spec_first_commits(inputs@).len() == 0 && old(self).spec_second_commits(
                inputs@,
                period_millis,
            ).len() == 0 && old(self).spec_first_reactions(inputs@, period_millis).len() == 0
                ==> final(self).game_state == old(self).game_state,
    {
        let ghost view0 = self.game_state.entity_store@;
        let ghost table0 = self.game_state.spatial_hash;
        let ghost turn0 = self.game_state.count as int;
        proof {
            if inputs@.len() == 0 && self.animations@.len() == 0 {
                assert(inputs@ =~= Seq::<Input>::empty());
                lemma_quiet_tick_commits_nothing(self, period_millis);
            }
        }
        let play = self.begin(&inputs, period_millis);
        let (played, Ghost(first), Ghost(second)) = self.play_turn(play);
        proof {
            assert(first == old(self).spec_first_commits(inputs@));
            assert(second == old(self).spec_second_commits(inputs@, period_millis));
            crate::entity_store::lemma_replay_concat(view0, first, second);
        }
        if played {
            let ghost table2 = self.game_state.spatial_hash;
            let (Ghost(third), Ghost(fourth)) = self.actors_turn();
            proof {
                assert(third + fourth == old(self).spec_actor_commits(
                    inputs@,
                    period_millis,
                    distance_costs(self.player_map),
                ));
                lemma_stamps_chain(
                    table0,
                    table2,
                    self.game_state.spatial_hash,
                    view0,
                    first + second,
                    third + fourth,
                    turn0,
                );
                crate::entity_store::lemma_replay_concat(view0, first + second, third + fourth);
            }
        } else {
            proof {
                assert(first + second + Seq::<EntityChange>::empty() =~= first + second);
                assert(self.card_state.deck.cards@.to_multiset().add(
                    taken(Seq::<Reaction>::empty()),
                ) =~= self.card_state.deck.cards@.to_multiset());
            }
        }
        if self.card_state.hand.is_empty() {
            Some(Meta::GameOver)
        } else {
            None
        }
    }

    pub fn entity_store(&self) -> (store: &EntityStore)
        ensures
            *store == self.game_state.entity_store,
    {
        &self.game_state.entity_store
    }

    pub fn spatial_hash(&self) -> (table: &SpatialHashTable)
        ensures
            *table == self.game_state.spatial_hash,
    {
        &self.game_state.spatial_hash
    }

    pub fn card_state(&self) -> (cards: &CardState)
        ensures
            *cards == self.card_state,
    {
        &self.card_state
    }

    pub fn input_state(&self) -> (input_state: &InputState)
        ensures
            *input_state == self.input_state,
    {
        &self.input_state
    }

    /// The state is that of a game that has just been set up from the
    /// level `rows` with the cards `cards` and a hand of `hand_size`:
    /// the store holds what the level draws and nothing has happened
    /// yet; the cards have been dealt in some order.
    pub open spec fn opens(
        &self,
        rows: Seq<Seq<char>>,
        cards: Seq<Card>,
        hand_size: usize,
    ) -> bool {
        &&& self.game_state.spatial_hash.size == level_size(rows)
        &&& self.game_state.spatial_hash.unstamped()
        &&& self.game_state.entity_store@ == StoreView::empty().replay(
            level_changes(Legend::Full, rows, rows.len() as int),
        )
        &&& self.game_state.id_allocator.next == level_ids(Legend::Full, rows, rows.len() as int)
        &&& self.game_state.count == 0
        &&& Some(self.player_id) == level_player(Legend::Full, rows, rows.len() as int)
        &&& self.input_state == InputState::WaitingForCardSelection
        &&& self.animations@.len() == 0
        &&& self.card_state.hand.capacity == hand_size
        &&& self.card_state.hand.cards@.len() == draw_count(cards.len() as int, 0, hand_size as int)
        &&& self.card_state.hand.cards@.len() + self.card_state.deck.cards@.len() == cards.len()
        &&& exists|order: Seq<Card>|
            #![trigger order.to_multiset()]
            {
                &&& order.to_multiset() == cards.to_multiset()
                &&& self.card_state.deck.cards@ == order.take(
                    order.len() - draw_count(order.len() as int, 0, hand_size as int),
                )
                &&& self.card_state.hand.cards@ == drawn(
                    order,
                    draw_count(order.len() as int, 0, hand_size as int),
                )
            }
    }

    /// Sets up a game from the level that `rows` draw, with the deck
    /// `cards` shuffled by a generator seeded with `rng_seed` and a hand
    /// of up to `hand_size` cards drawn from it. Nothing comes back for
    /// a level that cannot be loaded.
    pub fn from_level(rows: &Vec<&str>, cards: Vec<Card>, hand_size: usize, rng_seed: usize) -> (r:
        Option<State>)
        ensures
            r is Some <==> level_ok(Legend::Full, glyphs(rows@)),
            r matches Some(state) ==> state.wf() && state.opens(glyphs(rows@), cards@, hand_size),
    {
        let level = match read_level(Legend::Full, rows) {
            Some(level) => level,
            None => {
                return None;
            },
        };
        let mut game_state = GameState::rebuild(level.size, &level.changes);
        game_state.id_allocator.next = level.next_id;
        let mut rng = rng_from_seed(rng_seed);
        let card_state = CardState::new(cards, hand_size, &mut rng);
        let bfs = match bfs_context_for(level.size) {
            Some(bfs) => bfs,
            None => vstd::pervasive::unreached(),
        };
        let player_map = match distance_map_for(level.size) {
            Some(player_map) => player_map,
            None => vstd::pervasive::unreached(),
        };
        Some(
            State {
                game_state,
                player_id: level.player_id,
                changes: Vec::new(),
                reactions: Vec::new(),
                animations: Vec::new(),
                card_state,
                input_state: InputState::WaitingForCardSelection,
                bfs,
                player_map,
                path: Vec::new(),
                rng,
            },
        )
    }

    /// Sets up the game on its first level, with a deck of five punches
    /// and five moves shuffled by a generator seeded with `rng_seed`,
    /// and a hand of four.
    pub fn new(rng_seed: usize) -> (state: State)
        ensures
            state.wf(),
            state.opens(first_level(), first_deck(), INITIAL_HAND_SIZE),
    {
        let rows: Vec<&str> = vec![
            "##########",
            "#..m.....#",
            "#....#...#",
            "#.0@.#...#",
            "#....#...#",
            "#.####...#",
            "#........#",
            "#........#",
            "#........#",
            "##########",
        ];
        let cards: Vec<Card> = vec![
            Card::Punch,
            Card::Punch,
            Card::Punch,
            Card::Punch,
            Card::Punch,
            Card::Move,
            Card::Move,
            Card::Move,
            Card::Move,
            Card::Move,
        ];
        proof {
            lemma_first_level_ok();
            assert(glyphs(rows@) =~= first_level());
            assert(cards@ =~= first_deck());
        }
        match State::from_level(&rows, cards, INITIAL_HAND_SIZE, rng_seed) {
            Some(state) => state,
            None => vstd::pervasive::unreached(),
        }
    }

    /// Captures what is needed to bring this state back: a list of
    /// changes that builds the component tables, and everything else as
    /// it is, with `next_rng_seed` as the seed for the generator of the
    /// state brought back.
    pub fn create_save_state(&self, next_rng_seed: usize) -> (save: SaveState)
        requires
            self.wf(),
        ensures
            save.wf(),
            save.captures(self, next_rng_seed),
    {
        let mut changes: Vec<EntityChange> = Vec::new();
        self.game_state.entity_store.clone_changes(&mut changes);
        assert(changes@.skip(0) =~= changes@);
        assert(changes@ =~= spec_dump(self.game_state.entity_store@));
        SaveState {
            changes,
            id_allocator: self.game_state.id_allocator,
            count: self.game_state.count,
            player_id: self.player_id,
            card_state: self.card_state.duplicate(),
            animations: copy_animations(&self.animations),
            input_state: self.input_state,
            next_rng_seed,
            size: Size::new(
                self.game_state.spatial_hash.width(),
                self.game_state.spatial_hash.height(),
            ),
        }
    }

    /// Brings back the state that `save_state` captured: its changes
    /// are committed, one by one, to empty tables and an empty index,
    /// and everything else is taken over as it is.
    pub fn from_save_state(save_state: SaveState) -> (state: State)
        requires
            save_state.wf(),
        ensures
            state.wf(),
            state.restores(&save_state),
    {
        let SaveState {
            changes,
            id_allocator,
            count,
            player_id,
            card_state,
            animations,
            input_state,
            next_rng_seed,
            size,
        } = save_state;
        let mut game_state = GameState::rebuild(size, &changes);
        game_state.id_allocator = id_allocator;
        game_state.count = count;
        let bfs = match bfs_context_for(size) {
            Some(bfs) => bfs,
            None => vstd::pervasive::unreached(),
        };
        let player_map = match distance_map_for(size) {
            Some(player_map) => player_map,
            None => vstd::pervasive::unreached(),
        };
        State {
            game_state,
            player_id,
            changes: Vec::new(),
            reactions: Vec::new(),
            animations,
            card_state,
            input_state,
            bfs,
            player_map,
            path: Vec::new(),
            rng: rng_from_seed(next_rng_seed),
        }
    }

    /// The state is what `save` brings back.
    pub open spec fn restores(&self, save: &SaveState) -> bool {
        &&& self.game_state.entity_store@ == StoreView::empty().replay(save.changes@)
        &&& self.game_state.spatial_hash.size == save.size
        &&& self.game_state.spatial_hash.unstamped()
        &&& self.game_state.id_allocator == save.id_allocator
        &&& self.game_state.count == save.count
        &&& self.player_id == save.player_id
        &&& self.card_state.deck.cards@ == save.card_state.deck.cards@
        &&& self.card_state.hand.cards@ == save.card_state.hand.cards@
        &&& self.card_state.hand.capacity == save.card_state.hand.capacity
        &&& self.animations@ == save.animations@
        &&& self.input_state == save.input_state
    }

    /// What there is to draw: the position and tile of every entity
    /// that has both.
    pub open spec fn render_set(&self) -> Set<(Position, TileInfo)> {
        self.game_state.entity_store@.render_set()
    }
}

/// How many cards the hand of a new game can hold.
pub const INITIAL_HAND_SIZE: usize = 4;

/// The level that a new game is played on.
pub open spec fn first_level() -> Seq<Seq<char>> {
    seq![
        "##########"@,
        "#..m.....#"@,
        "#....#...#"@,
        "#.0@.#...#"@,
        "#....#...#"@,
        "#.####...#"@,
        "#........#"@,
        "#........#"@,
        "#........#"@,
        "##########"@,
    ]
}

/// The cards that a new game is played with.
pub open spec fn first_deck() -> Seq<Card> {
    seq![
        Card::Punch,
        Card::Punch,
        Card::Punch,
        Card::Punch,
        Card::Punch,
        Card::Move,
        Card::Move,
        Card::Move,
        Card::Move,
        Card::Move,
    ]
}

/// The first level can be loaded.
pub proof fn lemma_first_level_ok()
    ensures
        level_ok(Legend::Full, first_level()),
{
    reveal_strlit("##########");
    reveal_strlit("#..m.....#");
    reveal_strlit("#....#...#");
    reveal_strlit("#.0@.#...#");
    reveal_strlit("#....#...#");
    reveal_strlit("#.####...#");
    reveal_strlit("#........#");
    let rows = first_level();
    assert(rows.len() == 10);
    assert(rows[0].len() == 10);
    assert(level_size(rows).count() == 100) by (nonlinear_arith)
        requires
            level_size(rows).width == 10,
            level_size(rows).height == 10,
    ;
    assert(rows[3][3] == '@');
    crate::level::lemma_level_has_player(Legend::Full, rows, 3, 3, 10);
    assert forall|y: int, x: int| 0 <= y < rows.len() && 0 <= x < rows[y].len() implies glyph_known(
        Legend::Full,
        #[trigger] rows[y][x],
    ) by {
        if y == 0 || y == 9 {
            assert(rows[y] == "##########"@);
        } else if y == 1 {
            assert(rows[y] == "#..m.....#"@);
        } else if y == 2 || y == 4 {
            assert(rows[y] == "#....#...#"@);
        } else if y == 3 {
            assert(rows[y] == "#.0@.#...#"@);
        } else if y == 5 {
            assert(rows[y] == "#.####...#"@);
        } else {
            assert(rows[y] == "#........#"@);
        }
    }
}

/// A copy of a list of animations.
pub fn copy_animations(animations: &Vec<Animation>) -> (copy: Vec<Animation>)
    ensures
        copy@ == animations@,
{
    let mut copy: Vec<Animation> = Vec::new();
    let mut k: usize = 0;
    while k < animations.len()
        invariant
            k <= animations@.len(),
            copy@ == animations@.take(k as int),
        decreases animations@.len() - k,
    {
        copy.push(animations[k]);
        k = k + 1;
        assert(copy@ =~= animations@.take(k as int));
    }
    assert(animations@.take(k as int) =~= animations@);
    copy
}

/// All that is needed to bring a [`State`] back.
pub struct SaveState {
    /// A list of changes that builds the component tables.
    pub changes: Vec<EntityChange>,
    pub id_allocator: EntityIdAllocator,
    pub count: u64,
    pub player_id: EntityId,
    pub card_state: CardState,
    pub animations: Vec<Animation>,
    pub input_state: InputState,
    pub next_rng_seed: usize,
    pub size: Size,
}

impl SaveState {
    /// A state can be brought back from this: the grid can be searched,
    /// the hand holds no more than it can, and what is picked is in the
    /// hand.
    pub open spec fn wf(&self) -> bool {
        &&& searchable(self.size)
        &&& self.card_state.wf()
        &&& self.input_state.fits(self.card_state.hand.cards@)
    }

    /// This is what saving `state` with the seed `next_rng_seed` gives.
    pub open spec fn captures(&self, state: &State, next_rng_seed: usize) -> bool {
        &&& self.changes@ == spec_dump(state.game_state.entity_store@)
        &&& is_dump_of(self.changes@, state.game_state.entity_store@)
        &&& StoreView::empty().replay(self.changes@) == state.game_state.entity_store@
        &&& self.size == state.game_state.spatial_hash.size
        &&& self.id_allocator == state.game_state.id_allocator
        &&& self.count == state.game_state.count
        &&& self.player_id == state.player_id
        &&& self.card_state.deck.cards@ == state.card_state.deck.cards@
        &&& self.card_state.hand.cards@ == state.card_state.hand.cards@
        &&& self.card_state.hand.capacity == state.card_state.hand.capacity
        &&& self.animations@ == state.animations@
        &&& self.input_state == state.input_state
        &&& self.next_rng_seed == next_rng_seed
    }

    /// Whether a state can be brought back from this.
    pub fn is_wf(&self) -> (b: bool)
        ensures
            b == self.wf(),
    {
        let fits = match self.input_state {
            InputState::WaitingForCardSelection => true,
            InputState::WaitingForDirection(index, card) => match self.card_state.hand.get(index) {
                Some(held) => held == card,
                None => false,
            },
        };
        is_searchable(self.size) && self.card_state.hand.len() <= self.card_state.hand.capacity
            && fits
    }
}

/// The removal from `id` of each of `kinds`, in order.
pub open spec fn removes(id: EntityId, kinds: Seq<ComponentType>) -> Seq<EntityChange> {
    Seq::new(kinds.len(), |i: int| EntityChange::Remove(id, kinds[i]))
}

/// Changes that are calm are all committed, where the turn counter has
/// room for them.
pub proof fn lemma_calm_changes_resolve(
    view: StoreView,
    size: Size,
    changes: Seq<EntityChange>,
    headroom: nat,
)
    requires
        all_calm(changes),
        changes.len() <= headroom,
    ensures
        resolved(view, size, changes, headroom) == changes,
    decreases changes.len(),
{
    if changes.len() > 0 {
        assert forall|i: int| 0 <= i < changes.drop_last().len() implies calm(
            #[trigger] changes.drop_last()[i],
        ) by {
            assert(changes.drop_last()[i] == changes[i]);
        }
        lemma_calm_changes_resolve(view, size, changes.drop_last(), headroom);
        assert(calm(changes[changes.len() - 1]));
        assert(changes.drop_last().push(changes.last()) =~= changes);
    } else {
        assert(changes =~= Seq::<EntityChange>::empty());
    }
}

/// Removing kinds of component from `id` takes exactly those from it and
/// leaves every other entity as it was.
pub proof fn lemma_replay_removes(view: StoreView, id: EntityId, kinds: Seq<ComponentType>)
    ensures
        forall|other: EntityId, typ: ComponentType|
            #![trigger view.replay(removes(id, kinds)).holds(other, typ)]
            view.replay(removes(id, kinds)).holds(other, typ) == (view.holds(other, typ) && !(
            other == id && kinds.contains(typ))),
        forall|other: EntityId|
            #![trigger view.replay(removes(id, kinds)).coord_of(other)]
            other != id ==> view.replay(removes(id, kinds)).coord_of(other) == view.coord_of(
                other,
            ),
        view.replay(removes(id, kinds)).npc.subset_of(view.npc),
    decreases kinds.len(),
{
    let log = removes(id, kinds);
    if kinds.len() > 0 {
        let front = kinds.drop_last();
        let last = kinds.last();
        lemma_replay_removes(view, id, front);
        assert(log.drop_last() =~= removes(id, front));
        assert(log.last() == EntityChange::Remove(id, last));
        let before = view.replay(removes(id, front));
        let after = view.replay(log);
        assert(after == before.apply(EntityChange::Remove(id, last)));
        assert forall|other: EntityId, typ: ComponentType|
            #![trigger after.holds(other, typ)]
            after.holds(other, typ) == (view.holds(other, typ) && !(other == id && kinds.contains(
                typ,
            ))) by {
            assert(before.holds(other, typ) == (view.holds(other, typ) && !(other == id
                && front.contains(typ))));
            if front.contains(typ) {
                let j = choose|j: int| 0 <= j < front.len() && front[j] == typ;
                assert(kinds[j] == typ);
            }
            if kinds.contains(typ) && typ != last {
                let j = choose|j: int| 0 <= j < kinds.len() && kinds[j] == typ;
                assert(front[j] == typ);
            }
            if typ == last {
                assert(kinds[kinds.len() - 1] == typ);
            }
        }
        assert forall|other: EntityId|
            #![trigger after.coord_of(other)]
            other != id implies after.coord_of(other) == view.coord_of(other) by {
            assert(before.coord_of(other) == view.coord_of(other));
        }
    } else {
        assert(log.len() == 0);
        assert(view.replay(log) == view);
    }
}

/// Picking a card that the hand holds and then giving a direction asks
/// to play that card in that direction.
pub proof fn lemma_select_then_direct(
    hand: Seq<Card>,
    start: InputState,
    index: HandIndex,
    direction: CardinalDirection,
)
    requires
        index < hand.len(),
    ensures
        spec_interpret(hand, start, seq![Input::SelectCard(index), Input::Direction(direction)])
            == (Interpretation {
            input_state: InputState::WaitingForDirection(index, hand[index as int]),
            play: Some(Play { index, card: hand[index as int], direction }),
        }),
{
    let inputs = seq![Input::SelectCard(index), Input::Direction(direction)];
    let none = Seq::<Input>::empty();
    let one = seq![Input::SelectCard(index)];
    assert(inputs.drop_last() =~= one);
    assert(one.drop_last() =~= none);
    assert(spec_interpret(hand, start, none) == Interpretation { input_state: start, play: None });
    assert(spec_interpret(hand, start, one) == Interpretation {
        input_state: InputState::WaitingForDirection(index, hand[index as int]),
        play: None,
    });
}

/// One change alone is committed where the rules accept it and the turn
/// counter has room, and validating it emits what it picks up.
pub proof fn lemma_single_change(view: StoreView, size: Size, change: EntityChange, headroom: nat)
    requires
        headroom > 0,
    ensures
        resolved(view, size, seq![change], headroom) == (if crate::policy::accepts(
            change,
            view,
            size,
        ) {
            seq![change]
        } else {
            Seq::<EntityChange>::empty()
        }),
        emitted(view, size, seq![change], headroom) == pickups(change, view, size),
{
    let one = seq![change];
    let none = Seq::<EntityChange>::empty();
    assert(one.drop_last() =~= none);
    assert(resolved(view, size, none, headroom) =~= none);
    assert(emitted(view, size, none, headroom) =~= Seq::<Reaction>::empty());
    assert(view.replay(none) == view);
    assert(none.push(change) =~= one);
    assert(Seq::<Reaction>::empty() + pickups(change, view, size) =~= pickups(change, view, size));
}

/// Taking a card from an entity deletes the entity: every component it
/// holds is removed, where the turn counter has room, and nothing else
/// changes.
pub proof fn lemma_take_deletes(
    view: StoreView,
    size: Size,
    id: EntityId,
    card: Card,
    headroom: nat,
)
    requires
        headroom >= 6,
    ensures
        ({
            let log = resolved(
                view,
                size,
                asked_by_all(view, seq![Reaction::TakeCard(id, card)]),
                headroom,
            );
            &&& log.len() <= 6
            &&& log == asked_by_all(view, seq![Reaction::TakeCard(id, card)])
            &&& log == removes(id, flags_in(view, id).spec_kinds())
            &&& emitted(view, size, log, headroom) == Seq::<Reaction>::empty()
            &&& forall|typ: ComponentType| !(#[trigger] view.replay(log).holds(id, typ))
            &&& forall|other: EntityId, typ: ComponentType|
                other != id ==> #[trigger] view.replay(log).holds(other, typ) == view.holds(
                    other,
                    typ,
                )
            &&& forall|other: EntityId|
                other != id ==> #[trigger] view.replay(log).coord_of(other) == view.coord_of(other)
            &&& view.replay(log).npc.subset_of(view.npc)
        }),
{
    let take = seq![Reaction::TakeCard(id, card)];
    assert(take.drop_last() =~= Seq::<Reaction>::empty());
    assert(asked_by_all(view, take.drop_last()) =~= Seq::<EntityChange>::empty());
    let kinds = flags_in(view, id).spec_kinds();
    let gone = removes(id, kinds);
    assert(asked_by_all(view, take) =~= gone);
    crate::entity_store::lemma_kinds_members(flags_in(view, id));
    assert(all_calm(gone));
    lemma_calm_changes_resolve(view, size, gone, headroom);
    lemma_calm_emits_nothing(view, size, gone, headroom);
    lemma_replay_removes(view, id, kinds);
    let after = view.replay(gone);
    assert forall|typ: ComponentType| !(#[trigger] after.holds(id, typ)) by {
        assert(kinds.contains(typ) <==> flags_in(view, id).spec_get(typ));
        assert(flags_in(view, id).spec_get(typ) == view.holds(id, typ));
    }
}

/// Where no actor is about, the actors' turn proposes nothing, commits
/// nothing and emits nothing.
pub proof fn lemma_no_actors(
    view: StoreView,
    size: Size,
    player_id: EntityId,
    costs: Map<(int, int), nat>,
    headroom: nat,
)
    requires
        view.npc == Set::<EntityId>::empty(),
    ensures
        State::spec_moves(view, size, player_id, costs) == Seq::<EntityChange>::empty(),
        resolved(view, size, Seq::<EntityChange>::empty(), headroom) == Seq::<
            EntityChange,
        >::empty(),
        emitted(view, size, Seq::<EntityChange>::empty(), headroom) == Seq::<Reaction>::empty(),
        asked_by_all(view, Seq::<Reaction>::empty()) == Seq::<EntityChange>::empty(),
{
    let nobody = Seq::<EntityId>::empty();
    assert(nobody.to_set() =~= Set::<EntityId>::empty());
    crate::entity_store::lemma_is_sorted_ids(nobody);
    assert(actor_moves(view, size, costs, nobody) =~= Seq::<EntityChange>::empty());
    assert(State::spec_moves(view, size, player_id, costs) =~= Seq::<EntityChange>::empty());
}

/// A player plays a move onto a free cell of the grid on which one card
/// pickup lies, while no animation runs, no actor is about and the
/// turn counter has room. Then the tick commits the move, takes the
/// card, and removes every component of the pickup; the actors' turn
/// commits nothing. By the contract of [`State::tick`] the player ends
/// up on that cell, the pickup holds nothing any more, the card played
/// leaves the hand, the input state is reset, and the deck receives the
/// card that was taken.
pub proof fn lemma_move_onto_pickup(
    state: &State,
    index: HandIndex,
    direction: CardinalDirection,
    pickup: EntityId,
    period_millis: u64,
    costs: Map<(int, int), nat>,
)
    requires
        state.animations@.len() == 0,
        index < state.card_state.hand.cards@.len(),
        state.card_state.hand.cards@[index as int] == Card::Move,
        state.game_state.count <= u64::MAX - 8,
        state.game_state.entity_store@.player.contains(state.player_id),
        state.game_state.entity_store@.npc == Set::<EntityId>::empty(),
        crate::card::spec_aim(state.game_state.entity_store@, state.player_id, direction) is Some,
        state.game_state.spatial_hash.size.contains(
            crate::card::spec_aim(state.game_state.entity_store@, state.player_id, direction)->0,
        ),
        state.game_state.entity_store@.solid_at(
            crate::card::spec_aim(state.game_state.entity_store@, state.player_id, direction)->0,
        ).len() == 0,
        state.game_state.entity_store@.card_at(
            crate::card::spec_aim(state.game_state.entity_store@, state.player_id, direction)->0,
        ) == set![pickup],
        pickup != state.player_id,
    ensures
        ({
            let inputs = seq![Input::SelectCard(index), Input::Direction(direction)];
            let view = state.game_state.entity_store@;
            let to = crate::card::spec_aim(view, state.player_id, direction)->0;
            let after = view.replay(state.spec_commits(inputs, period_millis, costs));
            &&& spec_interpret(state.card_state.hand.cards@, state.input_state, inputs).play == Some(
                Play { index, card: Card::Move, direction },
            )
            &&& state.spec_first_commits(inputs) == seq![
                EntityChange::Insert(state.player_id, ComponentValue::Coord(to)),
            ]
            &&& state.spec_early_reactions(inputs, period_millis) == seq![
                Reaction::TakeCard(pickup, view.card[pickup]),
            ]
            &&& state.spec_late_reactions(inputs, period_millis, costs) == Seq::<Reaction>::empty()
            &&& state.spec_second_commits(inputs, period_millis) == removes(
                pickup,
                flags_in(view.replay(state.spec_first_commits(inputs)), pickup).spec_kinds(),
            )
            &&& state.spec_last_commits(inputs, period_millis, costs) == Seq::<
                EntityChange,
            >::empty()
            &&& after.coord_of(state.player_id) == Some(to)
            &&& forall|typ: ComponentType| !(#[trigger] after.holds(pickup, typ))
            &&& forall|other: EntityId, typ: ComponentType|
                other != pickup && other != state.player_id ==> #[trigger] after.holds(other, typ)
                    == view.holds(other, typ)
        }),
{
    let inputs = seq![Input::SelectCard(index), Input::Direction(direction)];
    let view = state.game_state.entity_store@;
    let size = state.game_state.spatial_hash.size;
    let player = state.player_id;
    let to = crate::card::spec_aim(view, player, direction)->0;
    let headroom = (u64::MAX - state.game_state.count) as nat;
    let go = EntityChange::Insert(player, ComponentValue::Coord(to));
    let take = Reaction::TakeCard(pickup, view.card[pickup]);
    lemma_select_then_direct(state.card_state.hand.cards@, state.input_state, index, direction);
    // The move is proposed and accepted, and the card is taken.
    let proposed = state.spec_proposed(inputs);
    assert(proposed =~= seq![go]);
    lemma_single_change(view, size, go, headroom);
    let first = state.spec_first_commits(inputs);
    assert(first == seq![go]);
    let here = seq![pickup];
    assert(here[0] == pickup);
    assert(here.to_set() =~= set![pickup]);
    crate::entity_store::lemma_is_sorted_ids(here);
    assert(view.card_at(to).contains(pickup));
    assert(pickups(go, view, size) =~= seq![take]);
    assert(state.spec_first_reactions(inputs, period_millis) =~= Seq::<Reaction>::empty());
    let early = state.spec_early_reactions(inputs, period_millis);
    assert(early =~= seq![take]);
    // The pickup is deleted.
    assert(first.drop_last() =~= Seq::<EntityChange>::empty());
    let moved = view.replay(first);
    assert(moved == view.apply(go));
    lemma_take_deletes(moved, size, pickup, view.card[pickup], (headroom - first.len()) as nat);
    let second = state.spec_second_commits(inputs, period_millis);
    let settled = state.spec_settled(inputs, period_millis);
    assert(settled == moved.replay(second));
    // No actor is about.
    assert(moved.npc == view.npc);
    assert(settled.npc =~= Set::<EntityId>::empty());
    let left = (headroom - first.len() - second.len()) as nat;
    lemma_no_actors(settled, size, player, costs, left);
    assert(settled.replay(Seq::<EntityChange>::empty()) == settled);
    let last = state.spec_last_commits(inputs, period_millis, costs);
    assert(last =~= Seq::<EntityChange>::empty());
    // What is left.
    let all = state.spec_commits(inputs, period_millis, costs);
    assert(all =~= first + second);
    crate::entity_store::lemma_replay_concat(view, first, second);
    assert(view.replay(all) == settled);
    assert(moved.coord_of(player) == Some(to));
    assert forall|other: EntityId, typ: ComponentType|
        other != pickup && other != player implies #[trigger] settled.holds(other, typ)
        == view.holds(other, typ) by {
        assert(moved.holds(other, typ) == view.holds(other, typ));
    }
}

/// A tick without inputs, while no animation runs, has nothing to
/// commit and nothing to react to: by the contract of
/// [`State::tick`] it leaves the component tables, the indexes, the
/// turn counter and the cards as they are.
pub proof fn lemma_quiet_tick_commits_nothing(state: &State, period_millis: u64)
    requires
        state.animations@.len() == 0,
    ensures
        state.spec_proposed(Seq::<Input>::empty()).len() == 0,
        state.spec_first_reactions(Seq::<Input>::empty(), period_millis).len() == 0,
        state.spec_first_commits(Seq::<Input>::empty()).len() == 0,
        state.spec_second_commits(Seq::<Input>::empty(), period_millis).len() == 0,
        spec_interpret(
            state.card_state.hand.cards@,
            state.input_state,
            Seq::<Input>::empty(),
        ).input_state == state.input_state,
{
    let none = Seq::<Input>::empty();
    let headroom = (u64::MAX - state.game_state.count) as nat;
    let view = state.game_state.entity_store@;
    let size = state.game_state.spatial_hash.size;
    assert(state.spec_proposed(none) =~= Seq::<EntityChange>::empty());
    assert(state.spec_first_commits(none) =~= Seq::<EntityChange>::empty());
    assert(emitted(view, size, Seq::<EntityChange>::empty(), headroom) =~= Seq::<Reaction>::empty());
    let reactions = state.spec_first_reactions(none, period_millis) + emitted(
        view,
        size,
        state.spec_proposed(none),
        headroom,
    );
    assert(reactions =~= Seq::<Reaction>::empty());
    assert(view.replay(state.spec_first_commits(none)) == view);
    assert(asked_by_all(view, reactions) =~= Seq::<EntityChange>::empty());
}

/// Between ticks, each cell of the spatial index counts exactly the
/// solid entities that the component tables place there, and lists
/// exactly the actors that they place there.
pub proof fn lemma_index_agrees_with_tables(state: &State, coord: Position)
    requires
        state.wf(),
        state.game_state.spatial_hash.size.contains(coord),
    ensures
        state.game_state.spatial_hash.spec_cell(coord).solid_count
            == state.game_state.entity_store@.solid_at(coord).len(),
        state.game_state.spatial_hash.spec_cell(coord).npc_set@
            == state.game_state.entity_store@.npc_at(coord),
        forall|typ: ComponentType, id: EntityId|
            state.game_state.entity_components.flags_of(id).spec_get(typ)
                == state.game_state.entity_store@.holds(id, typ),
{
}

/// A state that is saved and brought back at once is the state that was
/// saved, as far as the game goes: the same component tables, so the
/// same things to draw in the same places; an index that agrees with
/// them; the same turn, cards, animations and input state.
pub proof fn lemma_save_restore_round_trip(
    state: &State,
    next_rng_seed: usize,
    save: &SaveState,
    restored: &State,
)
    requires
        state.wf(),
        save.captures(state, next_rng_seed),
        restored.wf(),
        restored.restores(save),
    ensures
        restored.game_state.entity_store@ == state.game_state.entity_store@,
        restored.render_set() == state.render_set(),
        restored.game_state.spatial_hash.size == state.game_state.spatial_hash.size,
        forall|coord: Position|
            #![trigger restored.game_state.spatial_hash.spec_cell(coord)]
            state.game_state.spatial_hash.size.contains(coord) ==> {
                &&& restored.game_state.spatial_hash.spec_cell(coord).solid_count
                    == state.game_state.spatial_hash.spec_cell(coord).solid_count
                &&& restored.game_state.spatial_hash.spec_cell(coord).npc_set@
                    == state.game_state.spatial_hash.spec_cell(coord).npc_set@
            },
        restored.game_state.count == state.game_state.count,
        restored.game_state.id_allocator == state.game_state.id_allocator,
        restored.player_id == state.player_id,
        restored.card_state.deck.cards@ == state.card_state.deck.cards@,
        restored.card_state.hand.cards@ == state.card_state.hand.cards@,
        restored.animations@ == state.animations@,
        restored.input_state == state.input_state,
{
}

} // verus!
