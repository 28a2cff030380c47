//! Scoreboards, the inputs that score a category, and the registry of players.

use vstd::array::spec_array_update;
use vstd::prelude::*;

verus! {

/// Sum of the six number categories from which the bonus is awarded.
pub const BONUS_LIMIT: u16 = 63;

/// Points awarded once the number categories reach `BONUS_LIMIT`.
pub const BONUS_SCORE: u16 = 35;

/// Fixed award of a claimed small straight.
pub const SMALL_STRAIGHT_SCORE: u16 = 15;

/// Fixed award of a claimed large straight.
pub const LARGE_STRAIGHT_SCORE: u16 = 30;

/// Fixed award of a claimed yacht.
pub const YACHT_SCORE: u16 = 50;

/// What a category contributes to a sum: its value, or nothing while it is
/// not yet scored.
pub open spec fn points(slot: Option<u16>) -> nat {
    match slot {
        Some(value) => value as nat,
        None => 0,
    }
}

/// The bonus that a given sum of the number categories earns.
pub open spec fn bonus_for(numbers_sum: nat) -> nat {
    if numbers_sum >= BONUS_LIMIT {
        BONUS_SCORE as nat
    } else {
        0
    }
}

/// How many points the number categories still lack for the bonus.
pub open spec fn left_to_bonus(numbers_sum: nat) -> nat {
    if numbers_sum >= BONUS_LIMIT {
        0
    } else {
        (BONUS_LIMIT - numbers_sum) as nat
    }
}

/// What a claim category stores: the prize when claimed, zero when not.
pub open spec fn award(claimed: bool, prize: u16) -> u16 {
    if claimed {
        prize
    } else {
        0
    }
}

/// One player's record: the twelve categories and the figures derived from
/// them.
#[derive(Debug, Clone, Copy, PartialEq, Eq)]
pub struct Scoreboard {
    /// Ones to sixes, in that order.
    pub numbers: [Option<u16>; 6],
    pub left_to_get_bonus: u16,
    pub bonus: u16,
    pub choice: Option<u16>,
    pub full_house: Option<u16>,
    pub four_of_kind: Option<u16>,
    pub small_straight: Option<u16>,
    pub large_straight: Option<u16>,
    pub yacht: Option<u16>,
    pub total_score: u16,
}

impl Scoreboard {
    /// The board of a player who has scored nothing yet.
    pub open spec fn blank() -> Scoreboard {
        Scoreboard {
            numbers: [None, None, None, None, None, None],
            left_to_get_bonus: BONUS_LIMIT,
            bonus: 0,
            choice: None,
            full_house: None,
            four_of_kind: None,
            small_straight: None,
            large_straight: None,
            yacht: None,
            total_score: 0,
        }
    }

    /// Sum of the six number categories.
    pub open spec fn numbers_sum(self) -> nat {
        points(self.numbers[0]) + points(self.numbers[1]) + points(self.numbers[2]) + points(
            self.numbers[3],
        ) + points(self.numbers[4]) + points(self.numbers[5])
    }

    /// Sum of the six categories below the bonus line.
    pub open spec fn combinations_sum(self) -> nat {
        points(self.choice) + points(self.full_house) + points(self.four_of_kind) + points(
            self.small_straight,
        ) + points(self.large_straight) + points(self.yacht)
    }

    /// The total that the categories of this board add up to, bonus included.
    pub open spec fn grand_total(self) -> nat {
        self.numbers_sum() + bonus_for(self.numbers_sum()) + self.combinations_sum()
    }

    /// The derived fields say what the categories say.
    pub open spec fn is_consistent(self) -> bool {
        &&& self.left_to_get_bonus == left_to_bonus(self.numbers_sum())
        &&& self.bonus == bonus_for(self.numbers_sum())
        &&& self.total_score == self.numbers_sum() + self.bonus + self.combinations_sum()
    }

    /// The total of the categories can be stored in `total_score`.
    pub open spec fn fits(self) -> bool {
        self.grand_total() <= u16::MAX
    }

    /// This board with its derived fields computed anew from its categories.
    pub open spec fn recomputed(self) -> Scoreboard {
        Scoreboard {
            left_to_get_bonus: left_to_bonus(self.numbers_sum()) as u16,
            bonus: bonus_for(self.numbers_sum()) as u16,
            total_score: self.grand_total() as u16,
            ..self
        }
    }

    /// Computes the derived fields anew from the categories, which stay as
    /// they are.
    pub fn recompute(&mut self)
        requires
            old(self).fits(),
        ensures
            *final(self) == old(self).recomputed(),
            final(self).is_consistent(),
    {
        let nums_total: u16 = slot_points(self.numbers[0]) + slot_points(self.numbers[1])
            + slot_points(self.numbers[2]) + slot_points(self.numbers[3]) + slot_points(
            self.numbers[4],
        ) + slot_points(self.numbers[5]);
        self.left_to_get_bonus = BONUS_LIMIT.saturating_sub(nums_total);
        self.bonus = if self.left_to_get_bonus == 0 {
            BONUS_SCORE
        } else {
            0
        };
        self.total_score = nums_total + self.bonus + slot_points(self.choice) + slot_points(
            self.full_house,
        ) + slot_points(self.four_of_kind) + slot_points(self.small_straight) + slot_points(
            self.large_straight,
        ) + slot_points(self.yacht);
    }

    /// Scores `score` on this board: overwrites its category and brings the
    /// derived fields up to date.
    pub fn apply(&mut self, score: ScoreInput)
        requires
            score.written_to(*old(self)).fits(),
        ensures
            *final(self) == score.applied_to(*old(self)),
            final(self).is_consistent(),
    {
        score.write_to(self);
        self.recompute();
    }

    /// Whether the total still fits once `score` has been written, that is,
    /// whether `apply` may be called with it.
    pub fn accepts(&self, score: ScoreInput) -> (ok: bool)
        ensures
            ok == score.written_to(*self).fits(),
    {
        let mut board: Scoreboard = *self;
        score.write_to(&mut board);
        let nums_total: u32 = slot_points(board.numbers[0]) as u32 + slot_points(
            board.numbers[1],
        ) as u32 + slot_points(board.numbers[2]) as u32 + slot_points(board.numbers[3]) as u32
            + slot_points(board.numbers[4]) as u32 + slot_points(board.numbers[5]) as u32;
        let bonus: u32 = if nums_total >= BONUS_LIMIT as u32 {
            BONUS_SCORE as u32
        } else {
            0
        };
        let total: u32 = nums_total + bonus + slot_points(board.choice) as u32 + slot_points(
            board.full_house,
        ) as u32 + slot_points(board.four_of_kind) as u32 + slot_points(
            board.small_straight,
        ) as u32 + slot_points(board.large_straight) as u32 + slot_points(board.yacht) as u32;
        total <= u16::MAX as u32
    }
}

impl Default for Scoreboard {
    fn default() -> (board: Self)
        ensures
            board == Scoreboard::blank(),
    {
        let board = Self {
            numbers: [None; 6],
            left_to_get_bonus: BONUS_LIMIT,
            bonus: 0,
            choice: None,
            full_house: None,
            four_of_kind: None,
            small_straight: None,
            large_straight: None,
            yacht: None,
            total_score: 0,
        };
        assert(board.numbers =~= Scoreboard::blank().numbers);
        board
    }
}

/// Which category is being scored, together with what is written to it.
///
/// The nine variants that carry a number may be made without one (`None`),
/// standing for a chosen category that still awaits its value.
#[derive(Debug, Clone, Copy, PartialEq, Eq)]
pub enum ScoreInput {
    Ones(Option<u16>),
    Twos(Option<u16>),
    Threes(Option<u16>),
    Fours(Option<u16>),
    Fives(Option<u16>),
    Sixes(Option<u16>),
    Choice(Option<u16>),
    FullHouse(Option<u16>),
    FourOfKind(Option<u16>),
    SmallStraight(bool),
    LargeStraight(bool),
    Yacht(bool),
}

impl ScoreInput {
    /// This input names a number-carrying category and has no value yet.
    pub open spec fn awaits_value(self) -> bool {
        match self {
            ScoreInput::Ones(None)
            | ScoreInput::Twos(None)
            | ScoreInput::Threes(None)
            | ScoreInput::Fours(None)
            | ScoreInput::Fives(None)
            | ScoreInput::Sixes(None)
            | ScoreInput::Choice(None)
            | ScoreInput::FullHouse(None)
            | ScoreInput::FourOfKind(None) => true,
            _ => false,
        }
    }

    /// The same category, carrying `num`. Claim categories carry no number
    /// and stay as they are.
    pub open spec fn with_value(self, num: u16) -> ScoreInput {
        match self {
            ScoreInput::Ones(_) => ScoreInput::Ones(Some(num)),
            ScoreInput::Twos(_) => ScoreInput::Twos(Some(num)),
            ScoreInput::Threes(_) => ScoreInput::Threes(Some(num)),
            ScoreInput::Fours(_) => ScoreInput::Fours(Some(num)),
            ScoreInput::Fives(_) => ScoreInput::Fives(Some(num)),
            ScoreInput::Sixes(_) => ScoreInput::Sixes(Some(num)),
            ScoreInput::Choice(_) => ScoreInput::Choice(Some(num)),
            ScoreInput::FullHouse(_) => ScoreInput::FullHouse(Some(num)),
            ScoreInput::FourOfKind(_) => ScoreInput::FourOfKind(Some(num)),
            claim => claim,
        }
    }

    /// `board` after the category of this input has been overwritten; the
    /// derived fields are not touched.
    pub open spec fn written_to(self, board: Scoreboard) -> Scoreboard {
        match self {
            ScoreInput::Ones(v) => Scoreboard {
                numbers: spec_array_update(board.numbers, 0, v),
                ..board
            },
            ScoreInput::Twos(v) => Scoreboard {
                numbers: spec_array_update(board.numbers, 1, v),
                ..board
            },
            ScoreInput::Threes(v) => Scoreboard {
                numbers: spec_array_update(board.numbers, 2, v),
                ..board
            },
            ScoreInput::Fours(v) => Scoreboard {
                numbers: spec_array_update(board.numbers, 3, v),
                ..board
            },
            ScoreInput::Fives(v) => Scoreboard {
                numbers: spec_array_update(board.numbers, 4, v),
                ..board
            },
            ScoreInput::Sixes(v) => Scoreboard {
                numbers: spec_array_update(board.numbers, 5, v),
                ..board
            },
            ScoreInput::Choice(v) => Scoreboard { choice: v, ..board },
            ScoreInput::FullHouse(v) => Scoreboard { full_house: v, ..board },
            ScoreInput::FourOfKind(v) => Scoreboard { four_of_kind: v, ..board },
            ScoreInput::SmallStraight(claimed) => Scoreboard {
                small_straight: Some(award(claimed, SMALL_STRAIGHT_SCORE)),
                ..board
            },
            ScoreInput::LargeStraight(claimed) => Scoreboard {
                large_straight: Some(award(claimed, LARGE_STRAIGHT_SCORE)),
                ..board
            },
            ScoreInput::Yacht(claimed) => Scoreboard {
                yacht: Some(award(claimed, YACHT_SCORE)),
                ..board
            },
        }
    }

    /// `board` after this input has been scored on it: the category
    /// overwritten, then every derived field computed anew.
    pub open spec fn applied_to(self, board: Scoreboard) -> Scoreboard {
        self.written_to(board).recomputed()
    }

    /// Fills in the value of an input that awaits one. An input that already
    /// carries a value, and a claim, come back unchanged.
    pub fn inject(self, num: u16) -> (filled: Self)
        ensures
            filled == if self.awaits_value() {
                self.with_value(num)
            } else {
                self
            },
    {
        match self {
            Self::Ones(None) => Self::Ones(Some(num)),
            Self::Twos(None) => Self::Twos(Some(num)),
            Self::Threes(None) => Self::Threes(Some(num)),
            Self::Fours(None) => Self::Fours(Some(num)),
            Self::Fives(None) => Self::Fives(Some(num)),
            Self::Sixes(None) => Self::Sixes(Some(num)),
            Self::Choice(None) => Self::Choice(Some(num)),
            Self::FullHouse(None) => Self::FullHouse(Some(num)),
            Self::FourOfKind(None) => Self::FourOfKind(Some(num)),
            _ => self,
        }
    }

    /// Overwrites the category of this input on `board` and leaves the
    /// derived fields alone.
    fn write_to(self, board: &mut Scoreboard)
        ensures
            *final(board) == self.written_to(*old(board)),
    {
        match self {
            ScoreInput::Ones(score) => board.numbers[0] = score,
            ScoreInput::Twos(score) => board.numbers[1] = score,
            ScoreInput::Threes(score) => board.numbers[2] = score,
            ScoreInput::Fours(score) => board.numbers[3] = score,
            ScoreInput::Fives(score) => board.numbers[4] = score,
            ScoreInput::Sixes(score) => board.numbers[5] = score,
            ScoreInput::Choice(score) => board.choice = score,
            ScoreInput::FullHouse(score) => board.full_house = score,
            ScoreInput::FourOfKind(score) => board.four_of_kind = score,
            ScoreInput::SmallStraight(b) => {
                board.small_straight = Some(if b { SMALL_STRAIGHT_SCORE } else { 0 })
            },
            ScoreInput::LargeStraight(b) => {
                board.large_straight = Some(if b { LARGE_STRAIGHT_SCORE } else { 0 })
            },
            ScoreInput::Yacht(b) => board.yacht = Some(if b { YACHT_SCORE } else { 0 }),
        }
        assert(board.numbers =~= self.written_to(*old(board)).numbers);
    }
}

fn slot_points(slot: Option<u16>) -> (value: u16)
    ensures
        value == points(slot),
{
    match slot {
        Some(value) => value,
        None => 0,
    }
}

/// Name under which a player is registered.
pub type PlayerName = String;

/// A registered player and their board.
struct Entry {
    name: String,
    board: Scoreboard,
}

/// No name is registered twice.
spec fn distinct_names(entries: Seq<Entry>) -> bool {
    forall|i: int, j: int|
        0 <= i < j < entries.len() ==> (#[trigger] entries[i]).name@ != (#[trigger] entries[j]).name@
}

/// The registered names, in the order of the entries.
spec fn names_of(entries: Seq<Entry>) -> Seq<Seq<char>> {
    Seq::new(entries.len(), |i: int| entries[i].name@)
}

/// Some entry is registered under `name`.
spec fn has_name(entries: Seq<Entry>, name: Seq<char>) -> bool {
    exists|i: int| 0 <= i < entries.len() && (#[trigger] entries[i]).name@ == name
}

/// The place of the entry registered under `name`.
spec fn slot_of(entries: Seq<Entry>, name: Seq<char>) -> int {
    choose|i: int| 0 <= i < entries.len() && (#[trigger] entries[i]).name@ == name
}

/// The entries as a map from name to board.
spec fn board_map(entries: Seq<Entry>) -> Map<Seq<char>, Scoreboard> {
    Map::new(
        |name: Seq<char>| has_name(entries, name),
        |name: Seq<char>| entries[slot_of(entries, name)].board,
    )
}

/// The entry at `i` is the one that the map holds under its name.
proof fn lemma_entry_in_map(entries: Seq<Entry>, i: int)
    requires
        distinct_names(entries),
        0 <= i < entries.len(),
    ensures
        has_name(entries, entries[i].name@),
        slot_of(entries, entries[i].name@) == i,
        board_map(entries).contains_key(entries[i].name@),
        board_map(entries)[entries[i].name@] == entries[i].board,
{
    let name = entries[i].name@;
    assert(has_name(entries, name));
    let j = slot_of(entries, name);
    assert(entries[j].name@ == name);
    assert(j == i);
}

/// Replacing the board of the entry at `i` is an insert under its name.
proof fn lemma_board_replaced(entries: Seq<Entry>, i: int, entry: Entry)
    requires
        distinct_names(entries),
        0 <= i < entries.len(),
        entry.name@ == entries[i].name@,
    ensures
        distinct_names(entries.update(i, entry)),
        names_of(entries.update(i, entry)) == names_of(entries),
        board_map(entries.update(i, entry)) == board_map(entries).insert(entry.name@, entry.board),
{
    let after = entries.update(i, entry);
    assert(distinct_names(after)) by {
        assert forall|a: int, b: int| 0 <= a < b < after.len() implies (#[trigger] after[a]).name@
            != (#[trigger] after[b]).name@ by {
            assert(entries[a].name@ != entries[b].name@);
        }
    }
    assert(names_of(after) =~= names_of(entries));
    assert forall|name: Seq<char>| has_name(after, name) == has_name(entries, name) by {
        if has_name(entries, name) {
            let j = slot_of(entries, name);
            assert(after[j].name@ == name);
        }
        if has_name(after, name) {
            let j = slot_of(after, name);
            assert(entries[j].name@ == name);
        }
    }
    assert forall|name: Seq<char>| has_name(after, name) implies #[trigger] board_map(after)[name]
        == board_map(entries).insert(entry.name@, entry.board)[name] by {
        let j = slot_of(after, name);
        lemma_entry_in_map(after, j);
        lemma_entry_in_map(entries, j);
    }
    assert(board_map(after) =~= board_map(entries).insert(entry.name@, entry.board));
}

/// Appending an entry under a new name is an insert.
proof fn lemma_entry_pushed(entries: Seq<Entry>, entry: Entry)
    requires
        distinct_names(entries),
        !has_name(entries, entry.name@),
    ensures
        distinct_names(entries.push(entry)),
        names_of(entries.push(entry)) == names_of(entries).push(entry.name@),
        board_map(entries.push(entry)) == board_map(entries).insert(entry.name@, entry.board),
{
    let after = entries.push(entry);
    assert(distinct_names(after)) by {
        assert forall|a: int, b: int| 0 <= a < b < after.len() implies (#[trigger] after[a]).name@
            != (#[trigger] after[b]).name@ by {
            if b < entries.len() {
                assert(entries[a].name@ != entries[b].name@);
            } else {
                assert(entries[a].name@ != entry.name@);
            }
        }
    }
    assert(names_of(after) =~= names_of(entries).push(entry.name@));
    let last = entries.len() as int;
    assert(after[last].name@ == entry.name@);
    assert forall|name: Seq<char>|
        has_name(after, name) == (has_name(entries, name) || name == entry.name@) by {
        if has_name(entries, name) {
            let j = slot_of(entries, name);
            assert(after[j].name@ == name);
        }
        if has_name(after, name) && name != entry.name@ {
            let j = slot_of(after, name);
            assert(entries[j].name@ == name);
        }
    }
    assert forall|name: Seq<char>| has_name(after, name) implies #[trigger] board_map(after)[name]
        == board_map(entries).insert(entry.name@, entry.board)[name] by {
        let j = slot_of(after, name);
        lemma_entry_in_map(after, j);
        if j < entries.len() {
            lemma_entry_in_map(entries, j);
        }
    }
    assert(board_map(after) =~= board_map(entries).insert(entry.name@, entry.board));
}

/// Taking out the entry at `i` removes its name from the map.
proof fn lemma_entry_removed(entries: Seq<Entry>, i: int)
    requires
        distinct_names(entries),
        0 <= i < entries.len(),
    ensures
        distinct_names(entries.remove(i)),
        names_of(entries.remove(i)) == names_of(entries).remove(i),
        board_map(entries.remove(i)) == board_map(entries).remove(entries[i].name@),
{
    let after = entries.remove(i);
    let gone = entries[i].name@;
    assert forall|a: int| 0 <= a < after.len() implies #[trigger] after[a] == entries[if a < i {
        a
    } else {
        a + 1
    }] by {}
    assert(distinct_names(after)) by {
        assert forall|a: int, b: int| 0 <= a < b < after.len() implies (#[trigger] after[a]).name@
            != (#[trigger] after[b]).name@ by {
            let a0 = if a < i { a } else { a + 1 };
            let b0 = if b < i { b } else { b + 1 };
            assert(entries[a0].name@ != entries[b0].name@);
        }
    }
    assert(names_of(after) =~= names_of(entries).remove(i));
    assert forall|name: Seq<char>|
        has_name(after, name) == (has_name(entries, name) && name != gone) by {
        if has_name(entries, name) && name != gone {
            let j = slot_of(entries, name);
            let j1 = if j < i { j } else { j - 1 };
            assert(after[j1].name@ == name);
        }
        if has_name(after, name) {
            let j = slot_of(after, name);
            let j0 = if j < i { j } else { j + 1 };
            assert(entries[j0].name@ == name);
            assert(entries[j0].name@ != entries[i].name@);
        }
    }
    assert forall|name: Seq<char>| has_name(after, name) implies #[trigger] board_map(after)[name]
        == board_map(entries).remove(gone)[name] by {
        let j = slot_of(after, name);
        let j0 = if j < i { j } else { j + 1 };
        lemma_entry_in_map(after, j);
        lemma_entry_in_map(entries, j0);
    }
    assert(board_map(after) =~= board_map(entries).remove(gone));
}

/// The names are the keys of the map, each once.
proof fn lemma_names_are_keys(entries: Seq<Entry>)
    requires
        distinct_names(entries),
    ensures
        names_of(entries).no_duplicates(),
        names_of(entries).to_set() == board_map(entries).dom(),
        board_map(entries).dom().finite(),
        board_map(entries).len() == entries.len(),
{
    let names = names_of(entries);
    assert(names.no_duplicates()) by {
        assert forall|a: int, b: int| 0 <= a < names.len() && 0 <= b < names.len() && a != b implies names[a]
            != names[b] by {
            if a < b {
                assert(entries[a].name@ != entries[b].name@);
            } else {
                assert(entries[b].name@ != entries[a].name@);
            }
        }
    }
    assert forall|name: Seq<char>| names.to_set().contains(name) == board_map(entries).dom().contains(
        name,
    ) by {
        if names.contains(name) {
            let j = choose|j: int| 0 <= j < names.len() && names[j] == name;
            assert(entries[j].name@ == name);
        }
        if has_name(entries, name) {
            let j = slot_of(entries, name);
            assert(names[j] == name);
        }
    }
    assert(names.to_set() =~= board_map(entries).dom());
    names.unique_seq_to_set();
}

/// The registry of players: every registered name with its board.
///
/// Its view is the map from name to board; `names` gives the order in which
/// the players are listed.
pub struct Players {
    players: Vec<Entry>,
}

impl View for Players {
    type V = Map<Seq<char>, Scoreboard>;

    closed spec fn view(&self) -> Map<Seq<char>, Scoreboard> {
        board_map(self.players@)
    }
}

impl Players {
    /// The registry is valid: no name is registered twice.
    pub closed spec fn wf(&self) -> bool {
        distinct_names(self.players@)
    }

    /// The registered names in the order in which `iter` lists them.
    pub closed spec fn names(&self) -> Seq<Seq<char>> {
        names_of(self.players@)
    }

    /// The listed names are exactly the registered ones, each once.
    pub proof fn lemma_names(&self)
        requires
            self.wf(),
        ensures
            self.names().no_duplicates(),
            self.names().to_set() == self@.dom(),
            self@.dom().finite(),
            self@.len() == self.names().len(),
    {
        lemma_names_are_keys(self.players@);
    }

    /// An empty registry.
    pub fn new() -> (players: Self)
        ensures
            players.wf(),
            players@ == Map::<Seq<char>, Scoreboard>::empty(),
            players.names() == Seq::<Seq<char>>::empty(),
    {
        let players = Self { players: Vec::with_capacity(10) };
        assert(players@ =~= Map::<Seq<char>, Scoreboard>::empty());
        assert(players.names() =~= Seq::<Seq<char>>::empty());
        players
    }

    /// Where `name` is registered, if it is.
    fn position(&self, name: &String) -> (found: Option<usize>)
        requires
            self.wf(),
        ensures
            match found {
                Some(i) => {
                    &&& i < self.players@.len()
                    &&& self.players@[i as int].name@ == name@
                    &&& self@.contains_key(name@)
                    &&& self@[name@] == self.players@[i as int].board
                },
                None => !has_name(self.players@, name@) && !self@.contains_key(name@),
            },
    {
        let mut i: usize = 0;
        while i < self.players.len()
            invariant
                self.wf(),
                i <= self.players@.len(),
                forall|j: int| 0 <= j < i ==> (#[trigger] self.players@[j]).name@ != name@,
            decreases self.players@.len() - i,
        {
            if self.players[i].name == *name {
                proof {
                    lemma_entry_in_map(self.players@, i as int);
                }
                return Some(i);
            }
            i += 1;
        }
        None
    }

    /// The board registered under `name`, if there is one.
    pub fn get_player_score(&self, name: &PlayerName) -> (found: Option<&Scoreboard>)
        requires
            self.wf(),
        ensures
            match found {
                Some(board) => self@.contains_key(name@) && *board == self@[name@],
                None => !self@.contains_key(name@),
            },
    {
        match self.position(name) {
            Some(i) => Some(&self.players[i].board),
            None => None,
        }
    }

    /// The board registered under `name`, for writing. What the caller
    /// leaves in it is what the registry then holds under `name`; the derived
    /// fields are the caller's to keep up to date.
    pub fn get_player_score_mut(&mut self, name: &PlayerName) -> (found: Option<&mut Scoreboard>)
        requires
            old(self).wf(),
        ensures
            final(self).wf(),
            final(self).names() == old(self).names(),
            match found {
                Some(board) => {
                    &&& old(self)@.contains_key(name@)
                    &&& *board == old(self)@[name@]
                    &&& final(self)@ == old(self)@.insert(name@, *final(board))
                },
                None => !old(self)@.contains_key(name@) && final(self)@ == old(self)@,
            },
    {
        match self.position(name) {
            Some(i) => {
                proof {
                    let entries = self.players@;
                    assert forall|entry: Entry| entry.name == entries[i as int].name implies {
                        let after = #[trigger] entries.update(i as int, entry);
                        &&& distinct_names(after)
                        &&& names_of(after) == names_of(entries)
                        &&& board_map(after) == board_map(entries).insert(name@, entry.board)
                    } by {
                        lemma_board_replaced(entries, i as int, entry);
                    }
                }
                Some(&mut self.players[i].board)
            },
            None => None,
        }
    }

    /// Registers `name` with a blank board. A player who is registered
    /// already keeps their place and starts over with a blank board.
    pub fn add_player(&mut self, name: &str)
        requires
            old(self).wf(),
        ensures
            final(self).wf(),
            final(self)@ == old(self)@.insert(name@, Scoreboard::blank()),
            final(self).names() == if old(self)@.contains_key(name@) {
                old(self).names()
            } else {
                old(self).names().push(name@)
            },
    {
        let key = name.to_owned();
        match self.position(&key) {
            Some(i) => {
                self.players[i].board = Scoreboard::default();
                proof {
                    lemma_board_replaced(old(self).players@, i as int, self.players@[i as int]);
                }
            },
            None => {
                let entry = Entry { name: key, board: Scoreboard::default() };
                proof {
                    lemma_entry_pushed(old(self).players@, entry);
                }
                self.players.push(entry);
            },
        }
    }

    /// Removes the player registered under `name` and says whether there was
    /// one. The other players keep their boards and their order.
    pub fn del_player(&mut self, name: &str) -> (removed: bool)
        requires
            old(self).wf(),
        ensures
            final(self).wf(),
            removed == old(self)@.contains_key(name@),
            final(self)@ == old(self)@.remove(name@),
            final(self).names() == if removed {
                old(self).names().remove(old(self).names().index_of(name@))
            } else {
                old(self).names()
            },
            final(self)@.len() == old(self)@.len() - if removed { 1int } else { 0int },
    {
        let key = name.to_owned();
        proof {
            lemma_names_are_keys(old(self).players@);
        }
        match self.position(&key) {
            Some(i) => {
                proof {
                    lemma_entry_removed(old(self).players@, i as int);
                    lemma_names_are_keys(old(self).players@.remove(i as int));
                    let names = old(self).names();
                    assert(names[i as int] == name@);
                    assert(names.index_of(name@) == i);
                }
                self.players.remove(i);
                true
            },
            None => {
                proof {
                    assert(self@ =~= old(self)@.remove(name@));
                }
                false
            },
        }
    }

    /// Whether no player is registered.
    pub fn is_empty(&self) -> (empty: bool)
        requires
            self.wf(),
        ensures
            empty == (self@.len() == 0),
            empty == (self.names().len() == 0),
    {
        proof {
            lemma_names_are_keys(self.players@);
        }
        self.players.len() == 0
    }

    /// How many players are registered.
    pub fn len(&self) -> (count: usize)
        requires
            self.wf(),
        ensures
            count == self@.len(),
            count == self.names().len(),
    {
        proof {
            lemma_names_are_keys(self.players@);
        }
        self.players.len()
    }

    /// Scores `score` on the board of `player_name`. Where no such player is
    /// registered, nothing changes and `None` comes back.
    pub fn calculate_score(&mut self, player_name: &str, score: ScoreInput) -> (done: Option<()>)
        requires
            old(self).wf(),
            old(self)@.contains_key(player_name@) ==> score.written_to(
                old(self)@[player_name@],
            ).fits(),
        ensures
            final(self).wf(),
            final(self).names() == old(self).names(),
            done.is_some() == old(self)@.contains_key(player_name@),
            final(self)@ == if old(self)@.contains_key(player_name@) {
                old(self)@.insert(player_name@, score.applied_to(old(self)@[player_name@]))
            } else {
                old(self)@
            },
            done.is_some() ==> final(self)@[player_name@].is_consistent(),
    {
        let key = player_name.to_owned();
        match self.position(&key) {
            Some(i) => {
                let mut board: Scoreboard = self.players[i].board;
                board.apply(score);
                self.players[i].board = board;
                proof {
                    lemma_board_replaced(old(self).players@, i as int, self.players@[i as int]);
                }
                Some(())
            },
            None => None,
        }
    }

    /// Gives every registered player a blank board. Nobody joins or leaves.
    pub fn clear_score(&mut self)
        requires
            old(self).wf(),
        ensures
            final(self).wf(),
            final(self).names() == old(self).names(),
            final(self)@.dom() == old(self)@.dom(),
            forall|name: Seq<char>| #[trigger]
                final(self)@.contains_key(name) ==> final(self)@[name] == Scoreboard::blank(),
    {
        let mut i: usize = 0;
        while i < self.players.len()
            invariant
                self.wf(),
                i <= self.players@.len(),
                self.names() == old(self).names(),
                self@.dom() == old(self)@.dom(),
                forall|j: int| 0 <= j < i ==> (#[trigger] self.players@[j]).board == Scoreboard::blank(),
            decreases self.players@.len() - i,
        {
            let ghost before = self.players@;
            self.players[i].board = Scoreboard::default();
            proof {
                lemma_board_replaced(before, i as int, self.players@[i as int]);
                lemma_entry_in_map(before, i as int);
                assert(self@.dom() =~= old(self)@.dom());
            }
            i += 1;
        }
        proof {
            assert forall|name: Seq<char>| #[trigger] self@.contains_key(name) implies self@[name]
                == Scoreboard::blank() by {
                let j = slot_of(self.players@, name);
                lemma_entry_in_map(self.players@, j);
            }
        }
    }

    /// Every registered player with a copy of their board, in the order of
    /// `names`.
    pub fn iter(&self) -> (listed: Vec<(PlayerName, Scoreboard)>)
        requires
            self.wf(),
        ensures
            listed@.len() == self.names().len(),
            forall|i: int|
                0 <= i < listed@.len() ==> {
                    &&& (#[trigger] listed@[i]).0@ == self.names()[i]
                    &&& self@.contains_key(listed@[i].0@)
                    &&& listed@[i].1 == self@[listed@[i].0@]
                },
    {
        let mut listed: Vec<(PlayerName, Scoreboard)> = Vec::with_capacity(self.players.len());
        let mut i: usize = 0;
        while i < self.players.len()
            invariant
                self.wf(),
                i <= self.players@.len(),
                listed@.len() == i,
                forall|j: int|
                    0 <= j < i ==> {
                        &&& (#[trigger] listed@[j]).0@ == self.names()[j]
                        &&& self@.contains_key(listed@[j].0@)
                        &&& listed@[j].1 == self@[listed@[j].0@]
                    },
            decreases self.players@.len() - i,
        {
            proof {
                lemma_entry_in_map(self.players@, i as int);
            }
            listed.push((self.players[i].name.clone(), self.players[i].board));
            i += 1;
        }
        listed
    }

    /// The registry that holds every listed player with the listed board. Of
    /// two entries under one name the later one counts.
    pub fn from_entries(entries: Vec<(PlayerName, Scoreboard)>) -> (players: Self)
        ensures
            players.wf(),
            players@ == collected(entries@),
    {
        let mut players = Players::new();
        let mut i: usize = 0;
        while i < entries.len()
            invariant
                players.wf(),
                i <= entries@.len(),
                players@ == collected(entries@.take(i as int)),
            decreases entries@.len() - i,
        {
            let key = entries[i].0.clone();
            let board: Scoreboard = entries[i].1;
            proof {
                assert(entries@.take(i + 1).drop_last() =~= entries@.take(i as int));
            }
            match players.position(&key) {
                Some(at) => {
                    let ghost before = players.players@;
                    players.players[at].board = board;
                    proof {
                        lemma_board_replaced(before, at as int, players.players@[at as int]);
                    }
                },
                None => {
                    let entry = Entry { name: key, board };
                    proof {
                        lemma_entry_pushed(players.players@, entry);
                    }
                    players.players.push(entry);
                },
            }
            i += 1;
        }
        proof {
            assert(entries@.take(entries@.len() as int) =~= entries@);
        }
        players
    }
}

/// The map that a list of named boards stands for: each name with the board
/// of its last entry.
pub open spec fn collected(entries: Seq<(PlayerName, Scoreboard)>) -> Map<Seq<char>, Scoreboard>
    decreases entries.len(),
{
    if entries.len() == 0 {
        Map::empty()
    } else {
        collected(entries.drop_last()).insert(entries.last().0@, entries.last().1)
    }
}

/// A consistent board has the bonus exactly when its number categories have
/// reached the limit, and lacks for the bonus what they are short of it.
pub proof fn lemma_bonus_rule(board: Scoreboard)
    requires
        board.is_consistent(),
    ensures
        board.bonus == BONUS_SCORE <==> board.numbers_sum() >= BONUS_LIMIT,
        board.bonus == 0 <==> board.numbers_sum() < BONUS_LIMIT,
        board.numbers_sum() >= BONUS_LIMIT ==> board.left_to_get_bonus == 0,
        board.numbers_sum() < BONUS_LIMIT ==> board.left_to_get_bonus == BONUS_LIMIT
            - board.numbers_sum(),
{
}

/// Computing the derived fields anew keeps every category, makes the board
/// consistent, and changes nothing when done a second time.
pub proof fn lemma_recompute_settles(board: Scoreboard)
    requires
        board.fits(),
    ensures
        board.recomputed().is_consistent(),
        board.recomputed().numbers == board.numbers,
        board.recomputed().combinations_sum() == board.combinations_sum(),
        board.recomputed().fits(),
        board.recomputed().recomputed() == board.recomputed(),
{
}

/// A blank board is consistent and totals zero.
pub proof fn lemma_blank_is_consistent()
    ensures
        Scoreboard::blank().is_consistent(),
        Scoreboard::blank().total_score == 0,
        Scoreboard::blank().fits(),
{
}

/// Whatever is scored on a player who has just been added, adding the player
/// once more leaves the registry as it was right after the first adding: the
/// board is blank again.
pub proof fn lemma_adding_again_resets(
    registry: Map<Seq<char>, Scoreboard>,
    name: Seq<char>,
    score: ScoreInput,
)
    ensures
        registry.insert(name, Scoreboard::blank()).insert(
            name,
            score.applied_to(Scoreboard::blank()),
        ).insert(name, Scoreboard::blank()) == registry.insert(name, Scoreboard::blank()),
        registry.insert(name, Scoreboard::blank())[name].total_score == 0,
{
    assert(registry.insert(name, Scoreboard::blank()).insert(
        name,
        score.applied_to(Scoreboard::blank()),
    ).insert(name, Scoreboard::blank()) =~= registry.insert(name, Scoreboard::blank()));
}

/// Scoring on one board of a registry whose boards are all consistent leaves
/// them all consistent.
pub proof fn lemma_scoring_keeps_boards_consistent(
    registry: Map<Seq<char>, Scoreboard>,
    name: Seq<char>,
    score: ScoreInput,
)
    requires
        forall|player: Seq<char>| #[trigger]
            registry.contains_key(player) ==> registry[player].is_consistent(),
        registry.contains_key(name),
        score.written_to(registry[name]).fits(),
    ensures
        forall|player: Seq<char>| #[trigger]
            registry.insert(name, score.applied_to(registry[name])).contains_key(player)
                ==> registry.insert(name, score.applied_to(registry[name]))[player].is_consistent(),
{
}

/// Every entry of a list is in the map that the list stands for, and where
/// all entries agree with `boards`, so does that map.
proof fn lemma_collected_agrees(
    entries: Seq<(PlayerName, Scoreboard)>,
    boards: Map<Seq<char>, Scoreboard>,
)
    requires
        forall|i: int|
            0 <= i < entries.len() ==> boards.contains_key((#[trigger] entries[i]).0@)
                && boards[entries[i].0@] == entries[i].1,
    ensures
        forall|i: int|
            0 <= i < entries.len() ==> collected(entries).contains_key((#[trigger] entries[i]).0@),
        forall|name: Seq<char>| #[trigger]
            collected(entries).contains_key(name) ==> boards.contains_key(name) && collected(
                entries,
            )[name] == boards[name],
    decreases entries.len(),
{
    if entries.len() > 0 {
        let front = entries.drop_last();
        assert forall|i: int| 0 <= i < front.len() implies boards.contains_key(
            (#[trigger] front[i]).0@,
        ) && boards[front[i].0@] == front[i].1 by {
            assert(front[i] == entries[i]);
        }
        lemma_collected_agrees(front, boards);
        assert forall|i: int| 0 <= i < entries.len() implies collected(entries).contains_key(
            (#[trigger] entries[i]).0@,
        ) by {
            if i < front.len() {
                assert(front[i] == entries[i]);
            }
        }
        let last = entries[entries.len() - 1];
        assert(boards.contains_key(last.0@) && boards[last.0@] == last.1);
        assert forall|name: Seq<char>| #[trigger]
            collected(entries).contains_key(name) implies boards.contains_key(name) && collected(
            entries,
        )[name] == boards[name] by {
            if name != last.0@ {
                assert(collected(front).contains_key(name));
            }
        }
    }
}

/// Listing a registry and collecting the list gives the registry back: the
/// same players, each with the same board.
pub proof fn lemma_listing_round_trip(players: Players, listed: Seq<(PlayerName, Scoreboard)>)
    requires
        players.wf(),
        listed.len() == players.names().len(),
        forall|i: int|
            0 <= i < listed.len() ==> {
                &&& (#[trigger] listed[i]).0@ == players.names()[i]
                &&& players@.contains_key(listed[i].0@)
                &&& listed[i].1 == players@[listed[i].0@]
            },
    ensures
        collected(listed) == players@,
{
    lemma_collected_agrees(listed, players@);
    players.lemma_names();
    assert forall|name: Seq<char>| players@.contains_key(name) implies collected(
        listed,
    ).contains_key(name) by {
        assert(players.names().to_set().contains(name));
        let i = choose|i: int| 0 <= i < players.names().len() && players.names()[i] == name;
        assert(listed[i].0@ == name);
    }
    assert(collected(listed) =~= players@);
}

} // verus!
