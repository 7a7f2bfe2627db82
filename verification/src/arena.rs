use vstd::prelude::*;
use crate::effects::{emit, views, Effect, EffectView};
use crate::errors::ArenaError;
use crate::events::Choice;
use crate::state::{AddressId, ArenaConfig, ArenaState, DataKey, RoundState};

verus! {

/// One round's revealed choices, in the order in which they were revealed.
#[derive(Debug, PartialEq, Eq)]
pub struct RoundChoices {
    pub round: u32,
    pub choices: Vec<(AddressId, Choice)>,
}

/// A player's sealed choice for a round: the SHA-256 digest of the choice,
/// a nonce and the player's address.
#[derive(Clone, Copy, Debug, PartialEq, Eq)]
pub struct Commitment {
    pub round: u32,
    pub player: AddressId,
    pub hash: [u8; 32],
}

/// The arena's stored data as its operations read and write it. Addresses are
/// kept once, in `addresses`, as their XDR encodings; everything else names an
/// address by its index there. The flags `survivors`, `eliminated` and
/// `winners` are indexed by address. An absent entry of contract storage is
/// `None`; an absent player list is empty.
#[derive(Debug, PartialEq, Eq)]
pub struct Arena {
    pub addresses: Vec<Vec<u8>>,
    pub state: Option<ArenaState>,
    pub config: Option<ArenaConfig>,
    pub round: Option<RoundState>,
    pub survivor_count: Option<u32>,
    pub prize_pool: Option<i128>,
    pub yield_earned: Option<i128>,
    pub game_finished: Option<bool>,
    pub paused: Option<bool>,
    pub token: Option<AddressId>,
    pub factory: Option<AddressId>,
    pub arena_id: Option<u64>,
    pub all_players: Vec<AddressId>,
    pub survivors: Vec<bool>,
    pub eliminated: Vec<bool>,
    pub winners: Vec<bool>,
    pub round_choices: Vec<RoundChoices>,
    pub commitments: Vec<Commitment>,
}

/// What an `Arena` holds, as mathematical values.
#[verifier::ext_equal]
pub struct ArenaModel {
    pub addresses: Seq<Seq<u8>>,
    pub state: Option<ArenaState>,
    pub config: Option<ArenaConfig>,
    pub round: Option<RoundState>,
    pub survivor_count: Option<u32>,
    pub prize_pool: Option<i128>,
    pub yield_earned: Option<i128>,
    pub game_finished: Option<bool>,
    pub paused: Option<bool>,
    pub token: Option<AddressId>,
    pub factory: Option<AddressId>,
    pub arena_id: Option<u64>,
    pub all_players: Seq<AddressId>,
    pub survivors: Seq<bool>,
    pub eliminated: Seq<bool>,
    pub winners: Seq<bool>,
    pub round_choices: Seq<(u32, Seq<(AddressId, Choice)>)>,
    pub commitments: Seq<(u32, AddressId, Seq<u8>)>,
}

impl View for Arena {
    type V = ArenaModel;

    open spec fn view(&self) -> ArenaModel {
        ArenaModel {
            addresses: self.addresses@.map_values(|a: Vec<u8>| a@),
            state: self.state,
            config: self.config,
            round: self.round,
            survivor_count: self.survivor_count,
            prize_pool: self.prize_pool,
            yield_earned: self.yield_earned,
            game_finished: self.game_finished,
            paused: self.paused,
            token: self.token,
            factory: self.factory,
            arena_id: self.arena_id,
            all_players: self.all_players@,
            survivors: self.survivors@,
            eliminated: self.eliminated@,
            winners: self.winners@,
            round_choices: self.round_choices@.map_values(|rc: RoundChoices| (rc.round, rc.choices@)),
            commitments: self.commitments@.map_values(|c: Commitment| (c.round, c.player, c.hash@)),
        }
    }
}

// ── Looking things up ─────────────────────────────────────────────────────────

/// Index of the first occurrence of `k` in `keys`, or -1 when it does not occur.
pub open spec fn first_index<K>(keys: Seq<K>, k: K) -> int {
    if exists|i: int| 0 <= i < keys.len() && keys[i] == k {
        choose|i: int|
            0 <= i < keys.len() && keys[i] == k && forall|j: int| 0 <= j < i ==> keys[j] != k
    } else {
        -1
    }
}

proof fn lemma_minimal_witness<K>(keys: Seq<K>, k: K, w: int)
    requires
        0 <= w < keys.len(),
        keys[w] == k,
    ensures
        exists|i: int|
            0 <= i < keys.len() && keys[i] == k && forall|j: int| 0 <= j < i ==> keys[j] != k,
    decreases w,
{
    if exists|j: int| 0 <= j < w && keys[j] == k {
        let j = choose|j: int| 0 <= j < w && keys[j] == k;
        lemma_minimal_witness(keys, k, j);
    } else {
        assert(0 <= w < keys.len() && keys[w] == k && forall|j: int| 0 <= j < w ==> keys[j] != k);
    }
}

/// Where `k` occurs first, if it occurs.
pub proof fn lemma_first_index_generic<K>(keys: Seq<K>, k: K)
    ensures
        first_index(keys, k) == -1 <==> forall|j: int| 0 <= j < keys.len() ==> keys[j] != k,
        first_index(keys, k) != -1 ==> {
            let i = first_index(keys, k);
            &&& 0 <= i < keys.len()
            &&& keys[i] == k
            &&& forall|j: int| 0 <= j < i ==> keys[j] != k
        },
{
    if exists|i: int| 0 <= i < keys.len() && keys[i] == k {
        let w = choose|i: int| 0 <= i < keys.len() && keys[i] == k;
        lemma_minimal_witness(keys, k, w);
    }
}

/// The first index found by a scan that stopped at `i` is `first_index`.
pub proof fn lemma_first_index_at<K>(keys: Seq<K>, k: K, i: int)
    requires
        0 <= i < keys.len(),
        keys[i] == k,
        forall|j: int| 0 <= j < i ==> keys[j] != k,
    ensures
        first_index(keys, k) == i,
{
    lemma_first_index_generic(keys, k);
    let f = first_index(keys, k);
    if f < i {
        assert(keys[f] != k);
    } else if f > i {
        assert(keys[i] != k);
    }
}

pub open spec fn round_keys(s: Seq<(u32, Seq<(AddressId, Choice)>)>) -> Seq<u32> {
    s.map_values(|e: (u32, Seq<(AddressId, Choice)>)| e.0)
}

pub open spec fn player_keys(s: Seq<(AddressId, Choice)>) -> Seq<AddressId> {
    s.map_values(|e: (AddressId, Choice)| e.0)
}

pub open spec fn commitment_keys(s: Seq<(u32, AddressId, Seq<u8>)>) -> Seq<(u32, AddressId)> {
    s.map_values(|e: (u32, AddressId, Seq<u8>)| (e.0, e.1))
}

/// The choices revealed in round `r`: empty when none were stored.
pub open spec fn choices_of_round(m: ArenaModel, r: u32) -> Seq<(AddressId, Choice)> {
    let i = first_index(round_keys(m.round_choices), r);
    if i >= 0 {
        m.round_choices[i].1
    } else {
        seq![]
    }
}

/// The choice that `p` revealed, in a round's list of choices.
pub open spec fn choice_of(s: Seq<(AddressId, Choice)>, p: AddressId) -> Option<Choice> {
    let i = first_index(player_keys(s), p);
    if i >= 0 {
        Some(s[i].1)
    } else {
        None
    }
}

/// The commitment of `p` in round `r`, if one was made.
pub open spec fn commitment_of(m: ArenaModel, r: u32, p: AddressId) -> Option<Seq<u8>> {
    let i = first_index(commitment_keys(m.commitments), (r, p));
    if i >= 0 {
        Some(m.commitments[i].2)
    } else {
        None
    }
}

/// The index under which an address is kept, if it is kept.
pub open spec fn address_id_of(m: ArenaModel, xdr: Seq<u8>) -> Option<AddressId> {
    let i = first_index(m.addresses, xdr);
    if i >= 0 {
        Some(i as AddressId)
    } else {
        None
    }
}

pub open spec fn state_of(m: ArenaModel) -> ArenaState {
    match m.state {
        Some(s) => s,
        None => ArenaState::Pending,
    }
}

pub open spec fn survivor_count_of(m: ArenaModel) -> u32 {
    match m.survivor_count {
        Some(c) => c,
        None => 0,
    }
}

pub open spec fn prize_of(m: ArenaModel) -> i128 {
    match m.prize_pool {
        Some(p) => p,
        None => 0,
    }
}

pub open spec fn yield_of(m: ArenaModel) -> i128 {
    match m.yield_earned {
        Some(y) => y,
        None => 0,
    }
}

pub open spec fn finished_of(m: ArenaModel) -> bool {
    match m.game_finished {
        Some(f) => f,
        None => false,
    }
}

pub open spec fn paused_of(m: ArenaModel) -> bool {
    match m.paused {
        Some(p) => p,
        None => false,
    }
}

pub open spec fn is_survivor(m: ArenaModel, p: AddressId) -> bool {
    p < m.survivors.len() && m.survivors[p as int]
}

/// The arena's data is well formed: one flag of each kind per address, and
/// lists short enough to be counted in a `u32`.
pub open spec fn wf(m: ArenaModel) -> bool {
    &&& m.addresses.len() <= u32::MAX
    &&& m.survivors.len() == m.addresses.len()
    &&& m.eliminated.len() == m.addresses.len()
    &&& m.winners.len() == m.addresses.len()
    &&& m.all_players.len() <= u32::MAX
    &&& forall|i: int| 0 <= i < m.round_choices.len() ==> #[trigger] m.round_choices[i].1.len() <= u32::MAX
}

impl Arena {
    pub open spec fn wf(&self) -> bool {
        wf(self@)
    }

    /// An arena with nothing stored.
    pub fn new() -> (r: Arena)
        ensures
            r.wf(),
            r@.addresses.len() == 0,
            r@.state is None && r@.config is None && r@.round is None,
            r@.survivor_count is None && r@.prize_pool is None && r@.yield_earned is None,
            r@.game_finished is None && r@.paused is None,
            r@.token is None && r@.factory is None && r@.arena_id is None,
            r@.all_players.len() == 0,
            r@.round_choices.len() == 0,
            r@.commitments.len() == 0,
    {
        Arena {
            addresses: Vec::new(),
            state: None,
            config: None,
            round: None,
            survivor_count: None,
            prize_pool: None,
            yield_earned: None,
            game_finished: None,
            paused: None,
            token: None,
            factory: None,
            arena_id: None,
            all_players: Vec::new(),
            survivors: Vec::new(),
            eliminated: Vec::new(),
            winners: Vec::new(),
            round_choices: Vec::new(),
            commitments: Vec::new(),
        }
    }
}


// ── Stored values and their defaults ──────────────────────────────────────────

/// The arena's state; `Pending` until one is stored.
pub fn get_state(arena: &Arena) -> (r: ArenaState)
    ensures
        r == state_of(arena@),
{
    match arena.state {
        Some(s) => s,
        None => ArenaState::Pending,
    }
}

/// Storing `s` as the arena's state: nothing changes when it already is the
/// state; otherwise it is stored and, where a factory and an arena id are
/// known, the factory is told.
pub open spec fn set_state_spec(m: ArenaModel, s: ArenaState) -> (ArenaModel, Seq<EffectView>) {
    if state_of(m) == s {
        (m, seq![])
    } else {
        let m2 = ArenaModel { state: Some(s), ..m };
        match (m.factory, m.arena_id) {
            (Some(f), Some(id)) => (m2, seq![EffectView::NotifyFactory { factory: f, arena_id: id, state: s }]),
            _ => (m2, seq![]),
        }
    }
}

/// Moves the arena to `new_state` (see `set_state_spec`).
pub fn set_state(arena: &mut Arena, new_state: ArenaState, effects: &mut Vec<Effect>)
    ensures
        final(arena)@ == set_state_spec(old(arena)@, new_state).0,
        views(final(effects)@) == views(old(effects)@) + set_state_spec(old(arena)@, new_state).1,
{
    let old_state = get_state(arena);
    if old_state == new_state {
        assert(views(effects@) =~= views(old(effects)@) + seq![]);
        return;
    }
    arena.state = Some(new_state);
    match (arena.factory, arena.arena_id) {
        (Some(factory), Some(arena_id)) => {
            emit(effects, Effect::NotifyFactory { factory, arena_id, state: new_state });
            assert(views(effects@) =~= views(old(effects)@) + set_state_spec(old(arena)@, new_state).1);
        },
        _ => {
            assert(views(effects@) =~= views(old(effects)@) + seq![]);
        },
    }
}

/// The arena's configuration; `NotInitialized` until one is stored.
pub fn get_config(arena: &Arena) -> (r: Result<ArenaConfig, ArenaError>)
    ensures
        r == match arena@.config {
            Some(c) => Ok::<ArenaConfig, ArenaError>(c),
            None => Err(ArenaError::NotInitialized),
        },
{
    match arena.config {
        Some(c) => Ok(c),
        None => Err(ArenaError::NotInitialized),
    }
}

/// The current round; `NotInitialized` until one is stored.
pub fn get_round(arena: &Arena) -> (r: Result<RoundState, ArenaError>)
    ensures
        r == match arena@.round {
            Some(c) => Ok::<RoundState, ArenaError>(c),
            None => Err(ArenaError::NotInitialized),
        },
{
    match arena.round {
        Some(c) => Ok(c),
        None => Err(ArenaError::NotInitialized),
    }
}

/// Whether an entry under `key` lives in persistent storage (one entry per
/// player, round or arena) rather than in the contract's instance storage.
pub open spec fn is_persistent_key(key: DataKey) -> bool {
    match key {
        DataKey::Survivor(_) | DataKey::Eliminated(_) | DataKey::Commitment(_, _) | DataKey::RoundChoices(_)
        | DataKey::Metadata(_) | DataKey::PrizeClaimed(_) | DataKey::Winner(_) | DataKey::Refunded(_)
        | DataKey::AllPlayers => true,
        _ => false,
    }
}

/// The lifetime extension that keeps the entry under `key` alive.
pub open spec fn bump_spec(key: DataKey) -> EffectView {
    if is_persistent_key(key) {
        EffectView::ExtendPersistentTtl { key }
    } else {
        EffectView::ExtendInstanceTtl
    }
}

/// Extends the lifetime of the entry under `key`: of that entry where it is
/// persistent, of the contract instance otherwise.
pub fn bump(effects: &mut Vec<Effect>, key: &DataKey)
    ensures
        views(final(effects)@) == views(old(effects)@).push(bump_spec(*key)),
{
    match key {
        DataKey::Survivor(_) | DataKey::Eliminated(_) | DataKey::Commitment(_, _) | DataKey::RoundChoices(_)
        | DataKey::Metadata(_) | DataKey::PrizeClaimed(_) | DataKey::Winner(_) | DataKey::Refunded(_)
        | DataKey::AllPlayers => {
            emit(effects, Effect::ExtendPersistentTtl { key: *key });
        },
        _ => {
            emit(effects, Effect::ExtendInstanceTtl);
        },
    }
}

/// `Paused` while the arena is paused.
pub fn require_not_paused(arena: &Arena) -> (r: Result<(), ArenaError>)
    ensures
        r == if paused_of(arena@) {
            Err::<(), ArenaError>(ArenaError::Paused)
        } else {
            Ok(())
        },
{
    let paused = match arena.paused {
        Some(p) => p,
        None => false,
    };
    if paused {
        return Err(ArenaError::Paused);
    }
    Ok(())
}

// ── The address book ──────────────────────────────────────────────────────────

fn bytes_equal(a: &[u8], b: &[u8]) -> (r: bool)
    ensures
        r == (a@ == b@),
{
    if a.len() != b.len() {
        return false;
    }
    let mut i: usize = 0;
    while i < a.len()
        invariant
            i <= a.len(),
            a.len() == b.len(),
            forall|j: int| 0 <= j < i ==> a@[j] == b@[j],
        decreases a.len() - i,
    {
        if a[i] != b[i] {
            return false;
        }
        i = i + 1;
    }
    assert(a@ =~= b@);
    true
}

/// The index under which the address with XDR encoding `xdr` is kept.
pub fn address_id(arena: &Arena, xdr: &[u8]) -> (r: Option<AddressId>)
    requires
        arena.wf(),
    ensures
        r == address_id_of(arena@, xdr@),
{
    let ghost keys = arena@.addresses;
    let mut i: usize = 0;
    while i < arena.addresses.len()
        invariant
            i <= arena.addresses.len(),
            keys == arena@.addresses,
            keys.len() == arena.addresses.len(),
            forall|j: int| 0 <= j < i ==> keys[j] != xdr@,
        decreases arena.addresses.len() - i,
    {
        if bytes_equal(arena.addresses[i].as_slice(), xdr) {
            proof {
                lemma_first_index_at(keys, xdr@, i as int);
            }
            return Some(i as AddressId);
        }
        i = i + 1;
    }
    proof {
        lemma_first_index_generic(keys, xdr@);
    }
    None
}

/// Keeps the address with XDR encoding `xdr` in the address book, with all of
/// its flags clear, unless it is kept already; returns its index.
pub fn intern_address(arena: &mut Arena, xdr: &[u8]) -> (r: AddressId)
    requires
        old(arena).wf(),
        old(arena)@.addresses.len() < u32::MAX,
    ensures
        final(arena).wf(),
        address_id_of(old(arena)@, xdr@) is Some ==> {
            &&& r == address_id_of(old(arena)@, xdr@)->0
            &&& final(arena)@ == old(arena)@
        },
        address_id_of(old(arena)@, xdr@) is None ==> {
            &&& r == old(arena)@.addresses.len()
            &&& final(arena)@ == ArenaModel {
                addresses: old(arena)@.addresses.push(xdr@),
                survivors: old(arena)@.survivors.push(false),
                eliminated: old(arena)@.eliminated.push(false),
                winners: old(arena)@.winners.push(false),
                ..old(arena)@
            }
        },
        address_id_of(final(arena)@, xdr@) == Some(r),
{
    match address_id(arena, xdr) {
        Some(id) => id,
        None => {
            let ghost old_keys = arena@.addresses;
            let id = arena.addresses.len() as AddressId;
            let mut copy: Vec<u8> = Vec::new();
            let mut i: usize = 0;
            while i < xdr.len()
                invariant
                    i <= xdr.len(),
                    copy@ == xdr@.take(i as int),
                decreases xdr.len() - i,
            {
                copy.push(xdr[i]);
                i = i + 1;
                assert(copy@ =~= xdr@.take(i as int));
            }
            assert(xdr@.take(xdr.len() as int) =~= xdr@);
            arena.addresses.push(copy);
            arena.survivors.push(false);
            arena.eliminated.push(false);
            arena.winners.push(false);
            proof {
                lemma_first_index_generic(old_keys, xdr@);
                assert(arena@.addresses =~= old_keys.push(xdr@));
                lemma_first_index_at(arena@.addresses, xdr@, id as int);
            }
            id
        },
    }
}

// ── Copying ───────────────────────────────────────────────────────────────────

pub(crate) fn copy_vec<T: Copy>(v: &Vec<T>) -> (r: Vec<T>)
    ensures
        r@ == v@,
{
    let mut r: Vec<T> = Vec::new();
    let mut i: usize = 0;
    while i < v.len()
        invariant
            i <= v.len(),
            r@ == v@.take(i as int),
        decreases v.len() - i,
    {
        r.push(v[i]);
        i = i + 1;
        assert(r@ =~= v@.take(i as int));
    }
    assert(v@.take(v.len() as int) =~= v@);
    r
}

fn copy_addresses(v: &Vec<Vec<u8>>) -> (r: Vec<Vec<u8>>)
    ensures
        r@.map_values(|a: Vec<u8>| a@) == v@.map_values(|a: Vec<u8>| a@),
{
    let mut r: Vec<Vec<u8>> = Vec::new();
    let mut i: usize = 0;
    while i < v.len()
        invariant
            i <= v.len(),
            r@.len() == i,
            r@.map_values(|a: Vec<u8>| a@) == v@.take(i as int).map_values(|a: Vec<u8>| a@),
        decreases v.len() - i,
    {
        let c = copy_vec(&v[i]);
        let ghost old_r = r@;
        r.push(c);
        assert(forall|j: int| 0 <= j < i ==> r@[j] == old_r[j]);
        assert forall|j: int| 0 <= j < i implies r@[j]@ == v@[j]@ by {
            assert(old_r.map_values(|a: Vec<u8>| a@)[j] == v@.take(i as int).map_values(|a: Vec<u8>| a@)[j]);
        }
        i = i + 1;
        assert(r@.map_values(|a: Vec<u8>| a@) =~= v@.take(i as int).map_values(|a: Vec<u8>| a@));
    }
    assert(v@.take(v.len() as int) =~= v@);
    r
}

fn copy_round_choices(v: &Vec<RoundChoices>) -> (r: Vec<RoundChoices>)
    ensures
        r@.map_values(|rc: RoundChoices| (rc.round, rc.choices@))
            == v@.map_values(|rc: RoundChoices| (rc.round, rc.choices@)),
{
    let mut r: Vec<RoundChoices> = Vec::new();
    let mut i: usize = 0;
    while i < v.len()
        invariant
            i <= v.len(),
            r@.len() == i,
            r@.map_values(|rc: RoundChoices| (rc.round, rc.choices@))
                == v@.take(i as int).map_values(|rc: RoundChoices| (rc.round, rc.choices@)),
        decreases v.len() - i,
    {
        let c = RoundChoices { round: v[i].round, choices: copy_vec(&v[i].choices) };
        let ghost old_r = r@;
        r.push(c);
        assert forall|j: int| 0 <= j < i implies r@[j].round == v@[j].round && r@[j].choices@ == v@[j].choices@ by {
            assert(r@[j] == old_r[j]);
            assert(old_r.map_values(|rc: RoundChoices| (rc.round, rc.choices@))[j]
                == v@.take(i as int).map_values(|rc: RoundChoices| (rc.round, rc.choices@))[j]);
        }
        i = i + 1;
        assert(r@.map_values(|rc: RoundChoices| (rc.round, rc.choices@))
            =~= v@.take(i as int).map_values(|rc: RoundChoices| (rc.round, rc.choices@)));
    }
    assert(v@.take(v.len() as int) =~= v@);
    r
}

impl Arena {
    /// A copy of the arena.
    pub fn copy(&self) -> (r: Arena)
        ensures
            r@ == self@,
    {
        Arena {
            addresses: copy_addresses(&self.addresses),
            state: self.state,
            config: self.config,
            round: self.round,
            survivor_count: self.survivor_count,
            prize_pool: self.prize_pool,
            yield_earned: self.yield_earned,
            game_finished: self.game_finished,
            paused: self.paused,
            token: self.token,
            factory: self.factory,
            arena_id: self.arena_id,
            all_players: copy_vec(&self.all_players),
            survivors: copy_vec(&self.survivors),
            eliminated: copy_vec(&self.eliminated),
            winners: copy_vec(&self.winners),
            round_choices: copy_round_choices(&self.round_choices),
            commitments: copy_vec(&self.commitments),
        }
    }
}

} // verus!
