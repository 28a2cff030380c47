//! The board as it stands on a terminal: the registry of players together
//! with the figures that place its table, one column per player, and the
//! meaning of the keys that drive it.

pub mod input;

use crate::players::{PlayerName, Players, ScoreInput, Scoreboard};
use unicode_width::UnicodeWidthStr;
use vstd::prelude::*;

verus! {

/// Narrowest column that a player gets.
pub const MIN_PLAYER_NAME_OFFSET: usize = 6;

/// Columns that a player's column has beyond the width of the name.
pub const NAME_MARGIN: usize = 3;

/// Width of the legend that names the categories, left of the players.
pub const LEGEND_WIDTH: usize = 25;

/// Rows of the table above the middle of the screen.
pub const ROWS_ABOVE_CENTRE: usize = 11;

/// Columns that `text` takes on a terminal which shows characters of
/// ambiguous width as wide ones.
pub uninterp spec fn cjk_width(text: Seq<char>) -> nat;

/// `UnicodeWidthStr::width_cjk` of the crate unicode-width: the displayed
/// width of `text` in columns, characters of ambiguous width counted as two.
/// The contract gives that width a name and claims nothing else of it.
#[verifier::external_body]
fn width_cjk(text: &str) -> (columns: usize)
    ensures
        columns == cjk_width(text@),
{
    UnicodeWidthStr::width_cjk(text)
}

/// Width of the column of a player whose name is `name_width` columns wide.
pub open spec fn column_width(name_width: nat) -> nat {
    if name_width + NAME_MARGIN >= MIN_PLAYER_NAME_OFFSET {
        name_width + NAME_MARGIN as nat
    } else {
        MIN_PLAYER_NAME_OFFSET as nat
    }
}

/// Width of the column under `name`.
pub open spec fn column_of(name: Seq<char>) -> nat {
    column_width(cjk_width(name))
}

/// Width of the columns under `names`, side by side.
pub open spec fn span(names: Seq<Seq<char>>) -> nat
    decreases names.len(),
{
    if names.len() == 0 {
        0
    } else {
        span(names.drop_last()) + column_of(names.last())
    }
}

/// The first columns of a table are no wider than the whole of it.
pub proof fn lemma_span_grows(names: Seq<Seq<char>>, count: int)
    requires
        0 <= count <= names.len(),
    ensures
        span(names.take(count)) <= span(names),
    decreases names.len(),
{
    if count == names.len() {
        assert(names.take(count) =~= names);
    } else {
        assert(names.drop_last().take(count) =~= names.take(count));
        lemma_span_grows(names.drop_last(), count);
    }
}

/// Width of the column of a player whose name is `name_width` columns wide.
pub fn column_for(name_width: usize) -> (columns: usize)
    requires
        name_width + NAME_MARGIN <= usize::MAX,
    ensures
        columns == column_width(name_width as nat),
{
    let padded: usize = name_width + NAME_MARGIN;
    if padded >= MIN_PLAYER_NAME_OFFSET {
        padded
    } else {
        MIN_PLAYER_NAME_OFFSET
    }
}

/// Width of the column under `name`, unless it is more than a `usize` holds.
pub fn str_terminal_len(name: &str) -> (columns: Option<usize>)
    ensures
        columns == if column_of(name@) <= usize::MAX {
            Some(column_of(name@) as usize)
        } else {
            None
        },
{
    let name_width: usize = width_cjk(name);
    if name_width <= usize::MAX - NAME_MARGIN {
        Some(column_for(name_width))
    } else {
        None
    }
}

/// Where the table stands on the screen.
#[derive(Debug, Clone, Copy, PartialEq, Eq)]
pub struct Placement {
    /// Column of the table's left edge.
    pub x_offset: usize,
    /// Row of the table's top edge.
    pub y_offset: usize,
    /// Width of the legend, after which the players' columns begin.
    pub username_offset: usize,
    /// Width that the table is taken to have when it is centred.
    pub width: usize,
}

impl Placement {
    /// The placement of a board that has not been drawn yet.
    pub open spec fn initial() -> Placement {
        Placement { x_offset: 1, y_offset: 1, username_offset: LEGEND_WIDTH, width: 0 }
    }

    /// This placement brought up to date for a screen of `term_x` columns and
    /// `term_y` rows. A table without players is as wide as its legend; the
    /// table is centred, and where the screen is too small it starts at the
    /// screen's edge.
    pub open spec fn centred(self, no_players: bool, term_x: usize, term_y: usize) -> Placement {
        let width = if no_players {
            LEGEND_WIDTH
        } else {
            self.width
        };
        Placement {
            x_offset: if term_x >= width {
                ((term_x - width) / 2) as usize
            } else {
                0
            },
            y_offset: if term_y / 2 >= ROWS_ABOVE_CENTRE {
                (term_y / 2 - ROWS_ABOVE_CENTRE) as usize
            } else {
                0
            },
            username_offset: self.username_offset,
            width,
        }
    }

    /// The width left once the column under `name` is given up: nothing,
    /// where that column is wider than the table is taken to be.
    pub open spec fn narrowed(self, name: Seq<char>) -> Placement {
        Placement {
            width: if column_of(name) <= self.width {
                (self.width - column_of(name)) as usize
            } else {
                0
            },
            ..self
        }
    }

    /// The width with the column under `name` added.
    pub open spec fn widened(self, name: Seq<char>) -> Placement {
        Placement { width: (self.width + column_of(name)) as usize, ..self }
    }
}

/// One player's column of the table.
#[derive(Debug, PartialEq, Eq)]
pub struct Column {
    pub name: PlayerName,
    pub board: Scoreboard,
    /// Screen column of the left edge.
    pub left: usize,
    /// Distance from the left edge to the right edge.
    pub width: usize,
    /// Screen column of the right edge, which the next column shares.
    pub right: usize,
}

/// The registry of players and the placement of its table.
pub struct PlayBoard {
    players: Players,
    placement: Placement,
}

impl PlayBoard {
    /// The board is valid: its registry is.
    pub open spec fn wf(&self) -> bool {
        self.players().wf()
    }

    /// The registry of this board.
    pub closed spec fn players(&self) -> Players {
        self.players
    }

    /// The placement of this board.
    pub closed spec fn placement(&self) -> Placement {
        self.placement
    }

    /// A board without players that has not been drawn yet.
    pub fn new() -> (board: Self)
        ensures
            board.wf(),
            board.players()@ == Map::<Seq<char>, Scoreboard>::empty(),
            board.players().names() == Seq::<Seq<char>>::empty(),
            board.placement() == Placement::initial(),
    {
        Self {
            players: Players::new(),
            placement: Placement { x_offset: 1, y_offset: 1, username_offset: 25, width: 0 },
        }
    }

    /// The registry, for reading.
    pub fn registry(&self) -> (players: &Players)
        ensures
            *players == self.players(),
    {
        &self.players
    }

    /// The placement as it stands.
    pub fn current_placement(&self) -> (placement: Placement)
        ensures
            placement == self.placement(),
    {
        self.placement
    }

    /// Centres the table on a screen of `term_x` columns and `term_y` rows.
    pub fn layout(&mut self, term_x: usize, term_y: usize)
        requires
            old(self).wf(),
        ensures
            final(self).wf(),
            final(self).players() == old(self).players(),
            final(self).placement() == old(self).placement().centred(
                old(self).players()@.len() == 0,
                term_x,
                term_y,
            ),
    {
        if self.players.is_empty() {
            self.placement.width = LEGEND_WIDTH;
        }
        self.placement.x_offset = term_x.saturating_sub(self.placement.width) / 2;
        self.placement.y_offset = (term_y / 2).saturating_sub(ROWS_ABOVE_CENTRE);
    }

    /// Registers `name` with a blank board and makes room for its column.
    /// Where the table would become wider than a `usize` holds, nothing
    /// changes and `false` comes back.
    pub fn add_player(&mut self, name: &str) -> (added: bool)
        requires
            old(self).wf(),
        ensures
            final(self).wf(),
            added == (old(self).placement().width + column_of(name@) <= usize::MAX),
            added ==> {
                &&& final(self).players()@ == old(self).players()@.insert(
                    name@,
                    Scoreboard::blank(),
                )
                &&& final(self).players().names() == if old(self).players()@.contains_key(name@) {
                    old(self).players().names()
                } else {
                    old(self).players().names().push(name@)
                }
                &&& final(self).placement() == old(self).placement().widened(name@)
            },
            !added ==> *final(self) == *old(self),
    {
        let column: usize = match str_terminal_len(name) {
            Some(column) => column,
            None => { return false; },
        };
        match self.placement.width.checked_add(column) {
            Some(width) => {
                self.players.add_player(name);
                self.placement.width = width;
                true
            },
            None => false,
        }
    }

    /// Gives up the room of the column under `name`, then removes the player
    /// registered under that name and says whether there was one.
    pub fn delete_player(&mut self, name: &str) -> (removed: bool)
        requires
            old(self).wf(),
        ensures
            final(self).wf(),
            removed == old(self).players()@.contains_key(name@),
            final(self).players()@ == old(self).players()@.remove(name@),
            final(self).players().names() == if removed {
                old(self).players().names().remove(old(self).players().names().index_of(name@))
            } else {
                old(self).players().names()
            },
            final(self).placement() == old(self).placement().narrowed(name@),
    {
        self.placement.width = match str_terminal_len(name) {
            Some(column) => self.placement.width.saturating_sub(column),
            None => 0,
        };
        self.players.del_player(name)
    }

    /// Scores `score` on the board of `name`. Where no such player is
    /// registered, nothing changes and `None` comes back.
    pub fn update_player_score(&mut self, name: &str, score: ScoreInput) -> (done: Option<()>)
        requires
            old(self).wf(),
            old(self).players()@.contains_key(name@) ==> score.written_to(
                old(self).players()@[name@],
            ).fits(),
        ensures
            final(self).wf(),
            final(self).placement() == old(self).placement(),
            final(self).players().names() == old(self).players().names(),
            done.is_some() == old(self).players()@.contains_key(name@),
            final(self).players()@ == if old(self).players()@.contains_key(name@) {
                old(self).players()@.insert(name@, score.applied_to(old(self).players()@[name@]))
            } else {
                old(self).players()@
            },
    {
        self.players.calculate_score(name, score)
    }

    /// Gives every player a blank board; players and placement stay.
    pub fn clear_scores(&mut self)
        requires
            old(self).wf(),
        ensures
            final(self).wf(),
            final(self).placement() == old(self).placement(),
            final(self).players().names() == old(self).players().names(),
            final(self).players()@.dom() == old(self).players()@.dom(),
            forall|name: Seq<char>| #[trigger]
                final(self).players()@.contains_key(name) ==> final(self).players()@[name]
                    == Scoreboard::blank(),
    {
        self.players.clear_score();
    }

    /// The players' columns from left to right, in the order of the
    /// registry's `names`: the first begins where the legend ends, each
    /// further one where the one before it ends. `None` where the right edge
    /// of the last column lies beyond what a `usize` holds.
    pub fn columns(&self) -> (columns: Option<Vec<Column>>)
        requires
            self.wf(),
        ensures
            columns.is_some() == (self.placement().x_offset + self.placement().username_offset
                + span(self.players().names()) <= usize::MAX),
            columns matches Some(listed) ==> {
                &&& listed@.len() == self.players().names().len()
                &&& forall|i: int|
                    0 <= i < listed@.len() ==> {
                        &&& (#[trigger] listed@[i]).name@ == self.players().names()[i]
                        &&& self.players()@.contains_key(listed@[i].name@)
                        &&& listed@[i].board == self.players()@[listed@[i].name@]
                        &&& listed@[i].width == column_of(listed@[i].name@)
                        &&& listed@[i].left == self.placement().x_offset
                            + self.placement().username_offset + span(
                            self.players().names().take(i),
                        )
                        &&& listed@[i].right == listed@[i].left + listed@[i].width
                    }
            },
    {
        let entries = self.players.iter();
        let ghost names = self.players.names();
        let ghost base = self.placement.x_offset + self.placement.username_offset;
        let mut left: usize = match self.placement.x_offset.checked_add(
            self.placement.username_offset,
        ) {
            Some(left) => left,
            None => {
                return None;
            },
        };
        let mut listed: Vec<Column> = Vec::with_capacity(entries.len());
        let mut i: usize = 0;
        proof {
            assert(names.take(0) =~= Seq::<Seq<char>>::empty());
        }
        while i < entries.len()
            invariant
                self.wf(),
                names == self.players().names(),
                base == self.placement().x_offset + self.placement().username_offset,
                entries@.len() == names.len(),
                forall|j: int|
                    0 <= j < entries@.len() ==> {
                        &&& (#[trigger] entries@[j]).0@ == names[j]
                        &&& self.players()@.contains_key(entries@[j].0@)
                        &&& entries@[j].1 == self.players()@[entries@[j].0@]
                    },
                i <= entries@.len(),
                left == base + span(names.take(i as int)),
                listed@.len() == i,
                forall|j: int|
                    0 <= j < i ==> {
                        &&& (#[trigger] listed@[j]).name@ == names[j]
                        &&& self.players()@.contains_key(listed@[j].name@)
                        &&& listed@[j].board == self.players()@[listed@[j].name@]
                        &&& listed@[j].width == column_of(listed@[j].name@)
                        &&& listed@[j].left == base + span(names.take(j))
                        &&& listed@[j].right == listed@[j].left + listed@[j].width
                    },
            decreases entries@.len() - i,
        {
            proof {
                assert(names.take(i + 1).drop_last() =~= names.take(i as int));
                assert(names.take(i + 1).last() == names[i as int]);
                lemma_span_grows(names, i + 1);
            }
            let name = entries[i].0.clone();
            let width: usize = match str_terminal_len(name.as_str()) {
                Some(width) => width,
                None => {
                    return None;
                },
            };
            let right: usize = match left.checked_add(width) {
                Some(right) => right,
                None => {
                    return None;
                },
            };
            listed.push(Column { name, board: entries[i].1, left, width, right });
            left = right;
            i += 1;
        }
        proof {
            assert(names.take(names.len() as int) =~= names);
        }
        Some(listed)
    }

    /// Puts `players` in the place of the registry, as a whole. The
    /// placement stays as it is.
    pub fn replace_players(&mut self, players: Players)
        requires
            players.wf(),
        ensures
            final(self).wf(),
            final(self).players() == players,
            final(self).placement() == old(self).placement(),
    {
        self.players = players;
    }
}

} // verus!
