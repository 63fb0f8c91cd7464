//! The search: iterative-deepening negamax with alpha-beta, a
//! transposition table, null-move pruning, late-move reduction, killer
//! and history ordering, and a capture-only quiescence search.

use vstd::prelude::*;
use crate::board::Board;
use crate::config::{Config, config_wf};
use crate::evaluate::evaluate;
use crate::constants::{Piece, Player, MATE_VALUE, abs_of, side_of, is_major_spec, opponent_of};
use crate::model::{make_model, null_model, lemma_make_wf, lemma_make_unmake_roundtrip,
    lemma_null_wf, lemma_null_roundtrip, BoardModel};
use crate::move_gen::{is_king_in_check, contains_move};
use crate::moves::{Move, MoveList, from_of, to_of, cap_of, is_null_move};
use crate::opening_book::{BookEntry, book_wf, query_opening_book};
use crate::rules::{count_if, occ_at, in_check, pseudo_move_ok, lemma_count_zero,
    lemma_count_update, lemma_count_nonneg, lemma_count_congruent, lemma_pseudo_is_move};
use crate::tt::{TranspositionTable, TtFlag, TtEntry};
use crate::zobrist::ZOBRIST_PLAYER;

verus! {

/// The search never recurses beyond this ply.
pub const MAX_PLY: usize = 128;

/// Quiescence stops extending captures beyond this ply.
pub const Q_SEARCH_DEPTH: usize = 8;

/// A move tagged with its ordering score.
#[derive(Debug, Clone, Copy)]
pub struct ScoredMove {
    pub mv: Move,
    pub score: i32,
}

/// The wall clock at some instant.  Relies on `std::time::Instant`.
#[verifier::external_type_specification]
#[verifier::external_body]
pub struct ExInstant(std::time::Instant);

/// Relies on `std::time::Instant::now` for the current instant; the
/// result depends on the clock, so nothing is promised of it.
#[verifier::external_body]
fn instant_now() -> std::time::Instant {
    std::time::Instant::now()
}

/// Relies on `std::time::Instant::elapsed` for the time since `start`,
/// converted to milliseconds; the result depends on the clock, so
/// nothing is promised of it.
#[verifier::external_body]
fn elapsed_millis(start: &std::time::Instant) -> u128 {
    start.elapsed().as_millis()
}

/// The search engine and its caches.
pub struct Engine {
    pub tt: TranspositionTable,
    /// Quiet-move history counters, one per piece bit-set index and
    /// destination square, stored row-major.
    pub history_table: Vec<i32>,
    /// Two killer moves per ply, stored row-major.
    pub killer_moves: Vec<Move>,
    pub nodes_searched: u64,
    pub stop_search: bool,
    pub start_time: std::time::Instant,
    pub time_limit_ms: Option<u128>,
    pub config: Config,
    /// Opening book entries, consulted at the root.
    pub book: Vec<BookEntry>,
}

/// The engine's caches have their fixed shapes and bounded contents.
pub open spec fn wf_engine(e: Engine) -> bool {
    &&& e.tt.wf()
    &&& e.history_table@.len() == 1260
    &&& forall|i: int| 0 <= i < 1260 ==> 0 <= #[trigger] e.history_table@[i] <= 1_100_000
    &&& e.killer_moves@.len() == 2 * MAX_PLY
    &&& config_wf(e.config)
    &&& book_wf(e.book@)
}

/// How often, in two-ply steps back through the history, the hash `key`
/// occurs at or below index `i`.
pub open spec fn rep_count(h: Seq<u64>, i: int, key: u64) -> int
    decreases i + 2,
{
    if i < 0 {
        0
    } else {
        (if 0 <= i < h.len() && h[i] == key {
            1int
        } else {
            0int
        }) + rep_count(h, i - 2, key)
    }
}

proof fn lemma_rep_count_nonneg(h: Seq<u64>, i: int, key: u64)
    ensures
        rep_count(h, i, key) >= 0,
    decreases i + 2,
{
    if i >= 0 {
        lemma_rep_count_nonneg(h, i - 2, key);
    }
}

/// The position has already occurred at least twice among the prior
/// same-side positions: a draw by repetition.
pub open spec fn rep_draw(m: crate::model::BoardModel) -> bool {
    m.history_ply >= 4 && rep_count(m.history, m.history_ply - 2, m.hash) >= 2
}

/// A call changed neither the time budget, nor the opening book, nor,
/// when there is no budget, the stop flag: with no time limit the clock
/// never decides anything.
pub open spec fn controls_quiet(pre: Engine, post: Engine) -> bool {
    &&& post.time_limit_ms == pre.time_limit_ms
    &&& post.book@ == pre.book@
    &&& (pre.time_limit_ms is None ==> post.stop_search == pre.stop_search)
}

/// No time budget is set and the stop flag is clear, so the search runs
/// to completion.
pub open spec fn no_clock(e: Engine) -> bool {
    e.time_limit_ms is None && !e.stop_search
}

/// The transposition slot a hash maps to.
pub open spec fn tt_slot(e: Engine, h: u64) -> TtEntry {
    e.tt@[h as int % e.tt@.len() as int]
}

/// The slot neither matches the hash at this depth nor can cut off:
/// probing it changes nothing but the ordering hint.
pub open spec fn tt_quiet(e: Engine, h: u64, depth: int) -> bool {
    tt_slot(e, h).hash_key != h || tt_slot(e, h).depth < depth
}

/// The number of rooks, horses and cannons the given side has.
pub open spec fn majors(m: crate::model::BoardModel, p: Player) -> int {
    count_if(
        |s: int| occ_at(m.squares, s) && side_of(m.squares[s]) == p && is_major_spec(m.squares[s]),
        90,
    )
}

/// The side to move has no legal move at all.
pub open spec fn no_legal(m: crate::model::BoardModel) -> bool {
    forall|f: int, t: int| !#[trigger] crate::rules::legal_move_ok(m.squares, m.to_move, f, t)
}

/// A zeroed history table, one counter per piece index and destination.
fn fresh_history_table() -> (r: Vec<i32>)
    ensures
        r@.len() == 1260,
        forall|i: int| 0 <= i < 1260 ==> #[trigger] r@[i] == 0,
{
    let mut v: Vec<i32> = Vec::new();
    let mut i: usize = 0;
    while i < 1260
        invariant
            i <= 1260,
            v@.len() == i,
            forall|k: int| 0 <= k < i ==> #[trigger] v@[k] == 0,
        decreases 1260 - i,
    {
        v.push(0);
        i = i + 1;
    }
    v
}

/// A fresh killer table: two null moves per ply.
fn fresh_killers() -> (r: Vec<Move>)
    ensures
        r@.len() == 2 * MAX_PLY,
{
    let mut v: Vec<Move> = Vec::new();
    let mut i: usize = 0;
    while i < 2 * MAX_PLY
        invariant
            i <= 2 * MAX_PLY,
            v@.len() == i,
        decreases 2 * MAX_PLY - i,
    {
        v.push(Move::new(0, 0, None));
        i = i + 1;
    }
    v
}

impl Engine {
    /// An engine with a transposition table of the given megabyte budget
    /// and an empty opening book.
    pub fn new(tt_size_mb: usize) -> (r: Engine)
        requires
            1 <= tt_size_mb <= 1024,
        ensures
            wf_engine(r),
    {
        Engine {
            tt: TranspositionTable::new(tt_size_mb),
            history_table: fresh_history_table(),
            killer_moves: fresh_killers(),
            nodes_searched: 0,
            stop_search: false,
            start_time: instant_now(),
            time_limit_ms: None,
            config: Config::default(),
            book: Vec::new(),
        }
    }

    /// Resets the killer table.
    fn clear_killers(&mut self)
        ensures
            *final(self) == (Engine { killer_moves: final(self).killer_moves, ..*old(self) }),
            final(self).killer_moves@.len() == 2 * MAX_PLY,
    {
        self.killer_moves = fresh_killers();
    }

    /// Resets the quiet-move history counters.
    pub fn clear_history(&mut self)
        ensures
            *final(self) == (Engine { history_table: final(self).history_table, ..*old(self) }),
            final(self).history_table@.len() == 1260,
            forall|i: int| 0 <= i < 1260 ==> 0 <= #[trigger] final(self).history_table@[i]
                <= 1_100_000,
    {
        self.history_table = fresh_history_table();
    }

    /// The number of rooks, horses and cannons the given side still has.
    fn get_major_piece_count(&self, board: &Board, player: Player) -> (r: u32)
        requires
            board@.squares.len() == 90,
        ensures
            r == majors(board@, player),
    {
        let ghost sqs = board@.squares;
        let ghost pr = |s: int| occ_at(sqs, s) && side_of(sqs[s]) == player && is_major_spec(
            sqs[s],
        );
        let mut cnt: u32 = 0;
        let mut s: usize = 0;
        proof {
            lemma_count_zero(|u: int| pr(u) && u < 0, 90);
        }
        while s < 90
            invariant
                s <= 90,
                board@.squares == sqs,
                sqs.len() == 90,
                pr == (|s: int|
                    occ_at(sqs, s) && side_of(sqs[s]) == player && is_major_spec(sqs[s])),
                cnt == count_if(|u: int| pr(u) && u < s, 90),
                cnt <= s,
            decreases 90 - s,
        {
            let ghost pk = |u: int| pr(u) && u < s;
            let ghost pk1 = |u: int| pr(u) && u < s + 1;
            let p = board.board[s];
            let hit = p != Piece::Empty && p.is_major() && crate::move_gen::side_matches_pub(
                p,
                player,
            );
            if hit {
                cnt = cnt + 1;
            }
            proof {
                assert forall|u: int| 0 <= u < 90 && u != s implies (#[trigger] pk(u) <==> pk1(
                    u,
                )) by {}
                lemma_count_update(pk, pk1, 90, s as int);
                lemma_count_nonneg(pk, 90);
                if hit {
                    assert(pk1(s as int));
                    assert(!pk(s as int));
                } else {
                    assert(!pk1(s as int));
                    assert(!pk(s as int));
                }
            }
            s = s + 1;
        }
        proof {
            let pk = |u: int| pr(u) && u < 90;
            assert forall|u: int| 0 <= u < 90 implies (#[trigger] pk(u) <==> pr(u)) by {}
            lemma_count_congruent(pk, pr, 90);
        }
        cnt
    }

    /// Notes the passage of 2048 nodes and raises the stop flag once the
    /// time budget has run out.  The clock is outside the verified world,
    /// so only the flag's meaning is stated.
    fn check_time_limit(&mut self) -> (r: bool)
        ensures
            *final(self) == (Engine { stop_search: final(self).stop_search, ..*old(self) }),
            r == final(self).stop_search,
            old(self).stop_search ==> final(self).stop_search,
            old(self).time_limit_ms is None ==> final(self).stop_search == old(self).stop_search,
    {
        if self.nodes_searched % 2048 == 0 {
            match self.time_limit_ms {
                Some(limit) => {
                    let e = elapsed_millis(&self.start_time);
                    if e >= limit {
                        self.stop_search = true;
                    }
                },
                None => {},
            }
        }
        self.stop_search
    }

    /// Detects a draw by repetition: the current hash has already
    /// occurred at least twice among the prior same-side positions.
    fn handle_repetition(&self, board: &Board) -> (r: Option<i32>)
        requires
            board@.wf_history(),
        ensures
            r == (if board@.history_ply >= 4 && rep_count(
                board@.history,
                board@.history_ply - 2,
                board@.hash,
            ) >= 2 {
                Some(0i32)
            } else {
                Option::<i32>::None
            }),
    {
        let ghost h = board@.history;
        let ghost total = rep_count(board@.history, board@.history_ply - 2, board@.hash);
        let key = board.hash_key;
        if board.history_ply < 4 {
            return None;
        }
        let hp = board.history_ply;
        let mut i: usize = hp - 2;
        let mut cnt: u64 = 0;
        while i >= 2
            invariant
                i <= hp - 2,
                hp == board@.history_ply,
                hp >= 4,
                board@.wf_history(),
                h == board@.history,
                key == board@.hash,
                total == rep_count(h, hp - 2, key),
                cnt + rep_count(h, i as int, key) == total,
                2 * cnt <= (hp - 2) - i,
            decreases i,
        {
            proof {
                lemma_rep_count_nonneg(h, i as int - 2, key);
            }
            if self.history_get(board, i) == key {
                cnt = cnt + 1;
            }
            i = i - 2;
        }
        proof {
            lemma_rep_count_nonneg(h, i as int - 2, key);
            assert(rep_count(h, i as int - 2, key) == 0);
        }
        if self.history_get(board, i) == key {
            cnt = cnt + 1;
        }
        proof {
            assert(cnt == total);
        }
        if cnt >= 2 {
            Some(0)
        } else {
            None
        }
    }

    /// Reads one history slot.
    fn history_get(&self, board: &Board, i: usize) -> (r: u64)
        requires
            board@.wf_history(),
            i < board@.history.len(),
        ensures
            r == board@.history[i as int],
    {
        board.history[i]
    }
}

impl Engine {
    /// The ordering score of a move: transposition move first, then
    /// captures by victim-minus-aggressor value, then killers, then the
    /// history counter.
    fn score_move(&self, board: &Board, mv: Move, tt_best_move: Move, ply: usize) -> (r: i32)
        requires
            wf_engine(*self),
            board@.squares.len() == 90,
            from_of(mv) < 90,
            to_of(mv) < 90,
        ensures
            -2_000_000 <= r <= 2_000_000,
    {
        let from_sq = mv.from_sq();
        let to_sq = mv.to_sq();
        if from_sq == tt_best_move.from_sq() && to_sq == tt_best_move.to_sq() {
            return 1_000_000;
        }
        let captured_piece = board.board[to_sq];
        if captured_piece != Piece::Empty {
            let moving_piece = board.board[from_sq];
            return 800_000 + captured_piece.value() - moving_piece.value();
        }
        if ply < MAX_PLY {
            let k0 = self.killer_moves[2 * ply];
            if k0 == mv {
                return 500_000;
            }
            let k1 = self.killer_moves[2 * ply + 1];
            if k1 == mv {
                return 500_000 - 10;
            }
        }
        let moving_piece = board.board[from_sq];
        match moving_piece.get_bb_index() {
            Some(idx) => self.history_table[idx * 90 + to_sq],
            None => 0,
        }
    }

    /// Records a quiet move that refuted its position as the first
    /// killer of the ply, pushing the previous one down.
    fn store_killer_move(&mut self, mv: Move, ply: usize)
        requires
            wf_engine(*old(self)),
            ply < MAX_PLY,
        ensures
            wf_engine(*final(self)),
            *final(self) == (Engine { killer_moves: final(self).killer_moves, ..*old(self) }),
    {
        let prev = self.killer_moves[2 * ply];
        self.killer_moves.set(2 * ply + 1, prev);
        self.killer_moves.set(2 * ply, mv);
    }

    /// Raises the history counter of a quiet move by the square of the
    /// depth it refuted, saturating well below the ordering bounds.
    fn bump_history(&mut self, board: &Board, mv: Move, depth: i32)
        requires
            wf_engine(*old(self)),
            board@.squares.len() == 90,
            from_of(mv) < 90,
            to_of(mv) < 90,
            0 <= depth <= 300,
        ensures
            wf_engine(*final(self)),
            *final(self) == (Engine { history_table: final(self).history_table, ..*old(self) }),
    {
        let moving_piece = board.board[mv.from_sq()];
        match moving_piece.get_bb_index() {
            Some(idx) => {
                let slot = idx * 90 + mv.to_sq();
                let h = self.history_table[slot];
                if h <= 1_000_000 {
                    proof {
                        assert(depth * depth <= 90_000) by (nonlinear_arith)
                            requires
                                0 <= depth <= 300,
                        ;
                    }
                    self.history_table.set(slot, h + depth * depth);
                }
            },
            None => {},
        }
    }

    /// Stores a search result, deriving the bound flag from how the
    /// score relates to the original window: a lower bound at or above
    /// beta, exact strictly inside the window, an upper bound otherwise.
    /// The slot keeps the deeper of the old and new results.
    fn store_in_tt_table(
        &mut self,
        hash_key: u64,
        depth: i32,
        best_score: i32,
        original_alpha: i32,
        beta: i32,
        best_move: Move,
    )
        requires
            wf_engine(*old(self)),
            -2_000_000 <= best_score <= 2_000_000,
            from_of(best_move) < 90,
            to_of(best_move) < 90,
        ensures
            wf_engine(*final(self)),
            *final(self) == (Engine { tt: final(self).tt, ..*old(self) }),
            ({
                let i = hash_key as int % old(self).tt@.len() as int;
                let flag = if best_score >= beta {
                    TtFlag::LowerBound
                } else if best_score > original_alpha {
                    TtFlag::Exact
                } else {
                    TtFlag::UpperBound
                };
                if depth >= old(self).tt@[i].depth {
                    final(self).tt@ == old(self).tt@.update(
                        i,
                        TtEntry { hash_key, depth, score: best_score, flag, best_move },
                    )
                } else {
                    final(self).tt@ == old(self).tt@
                }
            }),
    {
        let flag = if best_score >= beta {
            TtFlag::LowerBound
        } else if best_score > original_alpha {
            TtFlag::Exact
        } else {
            TtFlag::UpperBound
        };
        self.tt.store(hash_key, depth, best_score, flag, best_move);
    }
}

/// The value occurs somewhere in the sequence.
pub open spec fn came_from(orig: Seq<ScoredMove>, x: ScoredMove) -> bool {
    exists|j: int| 0 <= j < orig.len() && x == #[trigger] orig[j]
}

/// Sorts scored moves into descending score order by selection.  The
/// result and the input hold the same elements: any property of all
/// input moves carries over, and no input move is lost.
fn sort_scored_moves(v: &mut Vec<ScoredMove>)
    ensures
        final(v)@.len() == old(v)@.len(),
        forall|k: int|
            0 <= k < final(v)@.len() ==> came_from(old(v)@, #[trigger] final(v)@[k]),
        forall|k: int|
            0 <= k < old(v)@.len() ==> came_from(final(v)@, #[trigger] old(v)@[k]),
        forall|k1: int, k2: int|
            0 <= k1 < k2 < final(v)@.len() ==> (#[trigger] final(v)@[k1]).score
                >= (#[trigger] final(v)@[k2]).score,
{
    let ghost orig = v@;
    let n = v.len();
    proof {
        assert forall|k: int| 0 <= k < v@.len() implies came_from(orig, #[trigger] v@[k]) by {
            assert(v@[k] == orig[k]);
        }
        assert forall|k: int| 0 <= k < orig.len() implies came_from(v@, #[trigger] orig[k]) by {
            assert(v@[k] == orig[k]);
        }
    }
    let mut i: usize = 0;
    while i < n
        invariant
            i <= n,
            v@.len() == n,
            orig.len() == n,
            forall|k: int| 0 <= k < v@.len() ==> came_from(orig, #[trigger] v@[k]),
            forall|k: int| 0 <= k < orig.len() ==> came_from(v@, #[trigger] orig[k]),
            forall|k1: int, k2: int|
                0 <= k1 < k2 < i ==> (#[trigger] v@[k1]).score >= (#[trigger] v@[k2]).score,
            forall|k1: int, k2: int|
                0 <= k1 < i <= k2 < n ==> (#[trigger] v@[k1]).score >= (#[trigger] v@[k2]).score,
        decreases n - i,
    {
        let mut best: usize = i;
        let mut j: usize = i + 1;
        while j < n
            invariant
                i < n,
                i <= best < n,
                i < j <= n,
                v@.len() == n,
                i <= best,
                forall|k: int| i <= k < j ==> (#[trigger] v@[k]).score <= v@[best as int].score,
            decreases n - j,
        {
            if v[j].score > v[best].score {
                best = j;
            }
            j = j + 1;
        }
        let a = v[i];
        let b = v[best];
        let ghost v0 = v@;
        v.set(i, b);
        v.set(best, a);
        proof {
            assert forall|k: int| 0 <= k < v@.len() implies came_from(orig, #[trigger] v@[k]) by {
                if k == i {
                    assert(came_from(orig, v0[best as int]));
                    assert(v@[k] == v0[best as int]);
                } else if k == best {
                    assert(came_from(orig, v0[i as int]));
                    assert(v@[k] == v0[i as int]);
                } else {
                    assert(came_from(orig, v0[k]));
                    assert(v@[k] == v0[k]);
                }
            }
            assert forall|k: int| 0 <= k < orig.len() implies came_from(v@, #[trigger] orig[k]) by {
                let w = choose|w: int| 0 <= w < v0.len() && orig[k] == #[trigger] v0[w];
                if w == i {
                    assert(v@[best as int] == v0[w]);
                } else if w == best {
                    assert(v@[i as int] == v0[w]);
                } else {
                    assert(v@[w] == v0[w]);
                }
            }
        }
        i = i + 1;
    }
}

impl Engine {
    /// Plays one pseudo-legal move and searches the resulting position
    /// with the negamax recursion, handing back the mover's score, or
    /// `None` if the move left the mover's own king in check.  The board
    /// comes back exactly as it was.
    #[verifier::rlimit(100)]
    fn try_search_move(
        &mut self,
        board: &mut Board,
        mv: Move,
        current_depth: i32,
        alpha: i32,
        beta: i32,
        ply: usize,
        first_move: bool,
        late: bool,
        is_in_check: bool,
        is_cap: bool,
    ) -> (r: Option<i32>)
        requires
            wf_engine(*old(self)),
            old(board).wf(),
            pseudo_move_ok(old(board)@.squares, old(board)@.to_move, from_of(mv), to_of(mv)),
            -2_000_000 <= alpha < beta <= 2_000_000,
            ply < MAX_PLY,
            0 <= current_depth <= 300,
        ensures
            wf_engine(*final(self)),
            final(board)@ == old(board)@,
            final(board).wf(),
            controls_quiet(*old(self), *final(self)),
            r matches Some(sc) ==> -2_000_000 <= sc <= 2_000_000,
            r is Some <==> crate::rules::legal_move_ok(
                old(board)@.squares,
                old(board)@.to_move,
                from_of(mv),
                to_of(mv),
            ),
        decreases 128 - ply, 3int,
    {
        let ghost m0 = board@;
        proof {
            lemma_pseudo_is_move(m0, from_of(mv), to_of(mv));
            lemma_make_wf(m0, from_of(mv), to_of(mv));
        }
        let captured = board.move_piece(mv);
        let ghost m1 = board@;
        let still_in_check = is_king_in_check(board, board.player_to_move.opponent());
        proof {
            assert(opponent_of(opponent_of(m0.to_move)) == m0.to_move);
            assert(still_in_check == in_check(m1.squares, m0.to_move));
        }
        if still_in_check {
            board.unmove_piece(mv, captured);
            proof {
                lemma_make_unmake_roundtrip(m0, from_of(mv), to_of(mv));
            }
            return None;
        }
        let score = self.recurse_scores(
            board,
            current_depth,
            alpha,
            beta,
            ply,
            first_move,
            late,
            is_in_check,
            is_cap,
        );
        proof {
            assert(board@ == m1);
        }
        board.unmove_piece(mv, captured);
        proof {
            lemma_make_unmake_roundtrip(m0, from_of(mv), to_of(mv));
            assert(board@ == m0);
        }
        Some(score)
    }

    /// Searches the position just reached by a move: the first legal
    /// move with the full window, later ones with a null window after a
    /// possible late-move reduction, re-searched on a fail-high.
    fn recurse_scores(
        &mut self,
        board: &mut Board,
        current_depth: i32,
        alpha: i32,
        beta: i32,
        ply: usize,
        first_move: bool,
        late: bool,
        is_in_check: bool,
        is_cap: bool,
    ) -> (score: i32)
        requires
            wf_engine(*old(self)),
            old(board).wf(),
            -2_000_000 <= alpha < beta <= 2_000_000,
            ply < MAX_PLY,
            0 <= current_depth <= 300,
        ensures
            wf_engine(*final(self)),
            final(board)@ == old(board)@,
            final(board).wf(),
            controls_quiet(*old(self), *final(self)),
            -2_000_000 <= score <= 2_000_000,
        decreases 128 - ply, 2int,
    {
        if first_move {
            let (_m, s1) = self.negamax(board, current_depth - 1, -beta, -alpha, ply + 1);
            -s1
        } else {
            let reduction: i32 = if current_depth >= 3 && late && !is_in_check && !is_cap {
                self.config.lmr_reduction
            } else {
                0
            };
            let (_m, s2) = self.negamax(
                board,
                current_depth - 1 - reduction,
                -alpha - 1,
                -alpha,
                ply + 1,
            );
            let score = -s2;
            if score > alpha && reduction > 0 {
                let (_m2, s3) = self.negamax(board, current_depth - 1, -beta, -alpha, ply + 1);
                -s3
            } else {
                score
            }
        }
    }

    /// Null-move pruning: when the side to move is not in check, has
    /// depth to spare and more than one major piece, passes the turn and
    /// searches reduced by R (3 beyond depth 6, else 2); a fail high
    /// prunes with `(null move, beta)`.  The board comes back exactly as
    /// it was, and nothing is pruned when the entry condition fails.
    fn perform_null_move_pruning(
        &mut self,
        board: &mut Board,
        current_depth: i32,
        beta: i32,
        is_in_check: bool,
        ply: usize,
    ) -> (r: Option<(Move, i32)>)
        requires
            wf_engine(*old(self)),
            old(board).wf(),
            -1_999_999 <= beta <= 2_000_000,
            ply < MAX_PLY,
            current_depth <= 300,
            is_in_check == in_check(old(board)@.squares, old(board)@.to_move),
        ensures
            wf_engine(*final(self)),
            final(board)@ == old(board)@,
            final(board).wf(),
            controls_quiet(*old(self), *final(self)),
            r matches Some(p) ==> {
                &&& is_null_move(p.0)
                &&& p.1 == beta
                &&& !is_in_check
                &&& current_depth >= 3
                &&& majors(old(board)@, old(board)@.to_move) > 1
            },
            (is_in_check || current_depth < 3 || majors(old(board)@, old(board)@.to_move) <= 1)
                ==> r is None,
        decreases 128 - ply, 3int,
    {
        let ghost m0 = board@;
        if is_in_check || current_depth < 3 {
            return None;
        }
        if self.get_major_piece_count(board, board.player_to_move) <= 1 {
            return None;
        }
        let r_red: i32 = if current_depth > 6 {
            3
        } else {
            2
        };
        proof {
            lemma_null_wf(m0);
        }
        board.make_null_move();
        let (_m, null_score) = self.negamax(
            board,
            current_depth - 1 - r_red,
            -beta,
            -beta + 1,
            ply + 1,
        );
        proof {
            let h = m0.hash;
            let zp = ZOBRIST_PLAYER;
            assert((h ^ zp) ^ zp == h) by (bit_vector);
            lemma_null_roundtrip(m0);
        }
        board.unmake_null_move();
        let score = -null_score;
        if score >= beta {
            return Some((Move::new(0, 0, None), beta));
        }
        None
    }

    /// One negamax node: alpha-beta over the ordered moves, with the
    /// transposition table, a check extension, null-move pruning and
    /// late-move reduction.  The board comes back exactly as it was, the
    /// returned move is the null move, the probed slot's move or a
    /// pseudo-legal move of the position, and when the clock and the
    /// table do not interfere the contract pins the repetition draw, the
    /// checkmate and stalemate results, and that a legal move is
    /// returned at the lowest depth whenever one exists.
    #[verifier::rlimit(100)]
    pub fn negamax(&mut self, board: &mut Board, depth: i32, alpha: i32, beta: i32, ply: usize)
        -> (r: (Move, i32))
        requires
            wf_engine(*old(self)),
            old(board).wf(),
            -2_000_000 <= alpha < beta <= 2_000_000,
            ply <= MAX_PLY,
            depth <= 300,
        ensures
            wf_engine(*final(self)),
            final(board)@ == old(board)@,
            final(board).wf(),
            controls_quiet(*old(self), *final(self)),
            -2_000_000 <= r.1 <= 2_000_000,
            from_of(r.0) < 90,
            to_of(r.0) < 90,
            is_null_move(r.0) || r.0 == tt_slot(*old(self), old(board)@.hash).best_move
                || pseudo_move_ok(
                old(board)@.squares,
                old(board)@.to_move,
                from_of(r.0),
                to_of(r.0),
            ),
            no_clock(*old(self)) && 0 < ply < MAX_PLY && rep_draw(old(board)@) ==> r.1 == 0
                && is_null_move(r.0),
            no_clock(*old(self)) && ply < MAX_PLY && (ply == 0 || !rep_draw(old(board)@))
                && tt_quiet(*old(self), old(board)@.hash, depth as int) && depth >= 1 && in_check(
                old(board)@.squares,
                old(board)@.to_move,
            ) && no_legal(old(board)@) ==> r.1 == -MATE_VALUE + ply && is_null_move(r.0),
            no_clock(*old(self)) && ply < MAX_PLY && (ply == 0 || !rep_draw(old(board)@))
                && tt_quiet(*old(self), old(board)@.hash, depth as int) && depth >= 1 && !in_check(
                old(board)@.squares,
                old(board)@.to_move,
            ) && (depth < 3 || majors(old(board)@, old(board)@.to_move) <= 1) && no_legal(
                old(board)@,
            ) ==> r.1 == 0 && is_null_move(r.0),
            no_clock(*old(self)) && ply < MAX_PLY && (ply == 0 || !rep_draw(old(board)@))
                && tt_quiet(*old(self), old(board)@.hash, depth as int) && depth == 1 && (exists|
                f: int,
                t: int,
            |
                crate::rules::legal_move_ok(
                    old(board)@.squares,
                    old(board)@.to_move,
                    f,
                    t,
                )) ==> crate::rules::legal_move_ok(
                old(board)@.squares,
                old(board)@.to_move,
                from_of(r.0),
                to_of(r.0),
            ),
        decreases 128 - ply, 4int,
    {
        let ghost m0 = board@;
        let null_mv = Move::new(0, 0, None);
        if ply >= MAX_PLY {
            return (null_mv, evaluate(board, &self.config));
        }
        if self.check_time_limit() {
            return (null_mv, 0);
        }
        if self.nodes_searched < u64::MAX {
            self.nodes_searched = self.nodes_searched + 1;
        }
        if ply > 0 {
            match self.handle_repetition(board) {
                Some(draw) => {
                    return (null_mv, draw);
                },
                None => {},
            }
        }

        let mut alpha = alpha;
        let mut beta = beta;
        let original_alpha = alpha;
        let mut tt_best_move = null_mv;
        match self.tt.probe(board.hash_key) {
            Some(entry) => {
                tt_best_move = entry.best_move;
                if entry.depth >= depth {
                    match entry.flag {
                        TtFlag::Exact => {
                            return (entry.best_move, entry.score);
                        },
                        TtFlag::LowerBound => {
                            if entry.score > alpha {
                                alpha = entry.score;
                            }
                        },
                        TtFlag::UpperBound => {
                            if entry.score < beta {
                                beta = entry.score;
                            }
                        },
                    }
                    if alpha >= beta {
                        return (entry.best_move, entry.score);
                    }
                }
            },
            None => {},
        }

        if depth <= 0 {
            let q = self.quiescence_search(board, alpha, beta, ply);
            return (null_mv, q);
        }

        let is_in_check = is_king_in_check(board, board.player_to_move);
        let current_depth = if is_in_check && depth < 256 {
            depth + 1
        } else {
            depth
        };

        match self.perform_null_move_pruning(board, current_depth, beta, is_in_check, ply) {
            Some(pruned) => {
                return pruned;
            },
            None => {},
        }

        // Generate and order the moves.
        let mut moves = MoveList::new();
        board.generate_capture_moves(&mut moves);
        let ghost caps = moves@;
        board.generate_quiet_moves(&mut moves);
        proof {
            assert forall|i: int| 0 <= i < moves@.len() implies pseudo_move_ok(
                m0.squares,
                m0.to_move,
                from_of(#[trigger] moves@[i]),
                to_of(moves@[i]),
            ) by {
                if i < caps.len() {
                    assert(moves@.subrange(0, caps.len() as int)[i] == moves@[i]);
                    assert(moves@[i] == caps[i]);
                }
            }
            assert forall|f: int, t: int|
                #[trigger] pseudo_move_ok(m0.squares, m0.to_move, f, t) implies contains_move(
                moves@,
                0,
                f,
                t,
            ) by {
                if occ_at(m0.squares, t) {
                    assert(crate::rules::capture_move_ok(m0.squares, m0.to_move, f, t));
                    let j = choose|j: int|
                        0 <= j < caps.len() && from_of(
                            #[trigger] moves@.subrange(0, caps.len() as int)[j],
                        ) == f && to_of(moves@.subrange(0, caps.len() as int)[j]) == t;
                    assert(moves@.subrange(0, caps.len() as int)[j] == moves@[j]);
                } else {
                    assert(crate::rules::quiet_move_ok(m0.squares, m0.to_move, f, t));
                }
            }
        }
        let n = moves.len();
        let mut scored: Vec<ScoredMove> = Vec::new();
        let mut i: usize = 0;
        while i < n
            invariant
                i <= n,
                n == moves@.len(),
                board@ == m0,
                board.wf(),
                wf_engine(*self),
                controls_quiet(*old(self), *self),
                scored@.len() == i,
                forall|j: int|
                    0 <= j < moves@.len() ==> pseudo_move_ok(
                        m0.squares,
                        m0.to_move,
                        from_of(#[trigger] moves@[j]),
                        to_of(moves@[j]),
                    ),
                forall|j: int| 0 <= j < i ==> (#[trigger] scored@[j]).mv == moves@[j],
            decreases n - i,
        {
            let mv = moves.get(i);
            let sc = self.score_move(board, mv, tt_best_move, ply);
            scored.push(ScoredMove { mv, score: sc });
            i = i + 1;
        }
        let ghost unsorted = scored@;
        sort_scored_moves(&mut scored);
        let ghost snap = scored@;
        proof {
            assert forall|j: int| 0 <= j < scored@.len() implies pseudo_move_ok(
                m0.squares,
                m0.to_move,
                from_of((#[trigger] scored@[j]).mv),
                to_of(scored@[j].mv),
            ) by {
                assert(came_from(unsorted, scored@[j]));
                let w = choose|w: int| 0 <= w < unsorted.len() && scored@[j] == #[trigger] unsorted[w];
                assert(unsorted[w].mv == moves@[w]);
            }
        }

        let mut legal_moves_found: usize = 0;
        let mut best_score: i32 = -MATE_VALUE;
        let mut best_move = null_mv;
        let m = scored.len();
        let mut k: usize = 0;
        while k < m
            invariant_except_break
                -2_000_000 <= alpha < beta <= 2_000_000,
                legal_moves_found <= k,
            invariant
                k <= m,
                m == scored@.len(),
                scored@ == snap,
                board@ == m0,
                board.wf(),
                wf_engine(*self),
                controls_quiet(*old(self), *self),
                legal_moves_found <= m,
                -2_000_000 <= best_score <= 2_000_000,
                from_of(best_move) < 90,
                to_of(best_move) < 90,
                -2_000_000 <= original_alpha <= 2_000_000,
                ply < MAX_PLY,
                1 <= current_depth <= 300,
                1 <= depth <= 300,
                forall|j: int|
                    0 <= j < scored@.len() ==> pseudo_move_ok(
                        m0.squares,
                        m0.to_move,
                        from_of((#[trigger] scored@[j]).mv),
                        to_of(scored@[j].mv),
                    ),
                no_legal(m0) ==> legal_moves_found == 0,
                legal_moves_found == 0 ==> forall|j: int|
                    0 <= j < k ==> !crate::rules::legal_move_ok(
                        m0.squares,
                        m0.to_move,
                        from_of((#[trigger] scored@[j]).mv),
                        to_of(scored@[j].mv),
                    ),
                legal_moves_found > 0 ==> crate::rules::legal_move_ok(
                    m0.squares,
                    m0.to_move,
                    from_of(best_move),
                    to_of(best_move),
                ),
                is_null_move(best_move) || pseudo_move_ok(
                    m0.squares,
                    m0.to_move,
                    from_of(best_move),
                    to_of(best_move),
                ),
            ensures
                board@ == m0,
                board.wf(),
                wf_engine(*self),
                controls_quiet(*old(self), *self),
                scored@ == snap,
                -2_000_000 <= best_score <= 2_000_000,
                from_of(best_move) < 90,
                to_of(best_move) < 90,
                no_legal(m0) ==> legal_moves_found == 0,
                k == m || legal_moves_found > 0,
                legal_moves_found == 0 ==> forall|j: int|
                    0 <= j < m ==> !crate::rules::legal_move_ok(
                        m0.squares,
                        m0.to_move,
                        from_of((#[trigger] scored@[j]).mv),
                        to_of(scored@[j].mv),
                    ),
                legal_moves_found > 0 ==> crate::rules::legal_move_ok(
                    m0.squares,
                    m0.to_move,
                    from_of(best_move),
                    to_of(best_move),
                ),
                is_null_move(best_move) || pseudo_move_ok(
                    m0.squares,
                    m0.to_move,
                    from_of(best_move),
                    to_of(best_move),
                ),
            decreases m - k,
        {
            let sm = scored[k];
            let mv = sm.mv;
            let is_cap = mv.is_capture();
            let first = legal_moves_found == 0;
            let late = legal_moves_found >= 3;
            let res = self.try_search_move(
                board,
                mv,
                current_depth,
                alpha,
                beta,
                ply,
                first,
                late,
                is_in_check,
                is_cap,
            );
            match res {
                None => {},
                Some(score) => {
                    legal_moves_found = legal_moves_found + 1;
                    if score > best_score || first {
                        best_score = score;
                        best_move = mv;
                    }
                    if best_score > alpha {
                        alpha = best_score;
                    }
                    if alpha >= beta {
                        if !is_cap {
                            self.store_killer_move(mv, ply);
                            self.bump_history(board, mv, depth);
                        }
                        break ;
                    }
                },
            }
            k = k + 1;
        }

        proof {
            // Whenever a legal move exists it was generated, so the loop
            // registered at least one.
            if exists|f: int, t: int|
                crate::rules::legal_move_ok(m0.squares, m0.to_move, f, t) {
                if legal_moves_found == 0 {
                    let (f, t) = choose|f: int, t: int|
                        crate::rules::legal_move_ok(m0.squares, m0.to_move, f, t);
                    assert(pseudo_move_ok(m0.squares, m0.to_move, f, t));
                    assert(contains_move(moves@, 0, f, t));
                    let j = choose|j: int|
                        0 <= j < moves@.len() && from_of(#[trigger] moves@[j]) == f && to_of(
                            moves@[j],
                        ) == t;
                    assert(unsorted[j].mv == moves@[j]);
                    assert(came_from(snap, unsorted[j]));
                    let w = choose|w: int| 0 <= w < snap.len() && unsorted[j] == #[trigger] snap[w];
                    assert(!crate::rules::legal_move_ok(
                        m0.squares,
                        m0.to_move,
                        from_of(snap[w].mv),
                        to_of(snap[w].mv),
                    ));
                    assert(false);
                }
            }
        }
        if legal_moves_found == 0 {
            let mate_score: i32 = if is_in_check {
                -MATE_VALUE + (ply as i32)
            } else {
                0
            };
            return (null_mv, mate_score);
        }
        self.store_in_tt_table(
            board.hash_key,
            depth,
            best_score,
            original_alpha,
            beta,
            best_move,
        );
        (best_move, best_score)
    }

    /// Plays one capture inside quiescence and hands back the mover's
    /// score, or `None` if it was illegal.  The board comes back exactly
    /// as it was.
    fn try_search_capture(&mut self, board: &mut Board, mv: Move, alpha: i32, beta: i32, ply: usize)
        -> (r: Option<i32>)
        requires
            wf_engine(*old(self)),
            old(board).wf(),
            pseudo_move_ok(old(board)@.squares, old(board)@.to_move, from_of(mv), to_of(mv)),
            -2_000_000 <= alpha < beta <= 2_000_000,
            ply < MAX_PLY,
        ensures
            wf_engine(*final(self)),
            final(board)@ == old(board)@,
            final(board).wf(),
            controls_quiet(*old(self), *final(self)),
            r matches Some(sc) ==> -2_000_000 <= sc <= 2_000_000,
        decreases 128 - ply, 0int,
    {
        let ghost m0 = board@;
        proof {
            lemma_pseudo_is_move(m0, from_of(mv), to_of(mv));
            lemma_make_wf(m0, from_of(mv), to_of(mv));
        }
        let captured = board.move_piece(mv);
        if is_king_in_check(board, board.player_to_move.opponent()) {
            board.unmove_piece(mv, captured);
            proof {
                lemma_make_unmake_roundtrip(m0, from_of(mv), to_of(mv));
            }
            return None;
        }
        let s1 = self.quiescence_search(board, -beta, -alpha, ply + 1);
        board.unmove_piece(mv, captured);
        proof {
            lemma_make_unmake_roundtrip(m0, from_of(mv), to_of(mv));
        }
        Some(-s1)
    }

    /// Quiescence search: stand pat on the static evaluation, then
    /// consider captures only, to a fixed depth.  The board comes back
    /// exactly as it was; past the ply cap the static evaluation comes
    /// back, and with no clock interference a stand pat at or above beta
    /// fails high with beta and every result is fail-hard, between the
    /// better of alpha and the stand pat and beta.
    #[verifier::rlimit(100)]
    pub fn quiescence_search(&mut self, board: &mut Board, alpha: i32, beta: i32, ply: usize) -> (r:
        i32)
        requires
            wf_engine(*old(self)),
            old(board).wf(),
            -2_000_000 <= alpha < beta <= 2_000_000,
            ply <= MAX_PLY,
        ensures
            wf_engine(*final(self)),
            final(board)@ == old(board)@,
            final(board).wf(),
            controls_quiet(*old(self), *final(self)),
            -2_000_000 <= r <= 2_000_000,
            ply >= MAX_PLY || ply > Q_SEARCH_DEPTH ==> r == crate::evaluate::eval_spec(
                old(board)@.squares,
                old(board)@.to_move,
                old(self).config,
            ),
            no_clock(*old(self)) && ply < MAX_PLY && ply <= Q_SEARCH_DEPTH
                && crate::evaluate::eval_spec(
                old(board)@.squares,
                old(board)@.to_move,
                old(self).config,
            ) >= beta ==> r == beta,
            no_clock(*old(self)) && ply < MAX_PLY && ply <= Q_SEARCH_DEPTH
                && crate::evaluate::eval_spec(
                old(board)@.squares,
                old(board)@.to_move,
                old(self).config,
            ) < beta ==> alpha <= r <= beta && crate::evaluate::eval_spec(
                old(board)@.squares,
                old(board)@.to_move,
                old(self).config,
            ) <= r,
        decreases 128 - ply, 1int,
    {
        let ghost m0 = board@;
        if ply >= MAX_PLY || ply > Q_SEARCH_DEPTH {
            return evaluate(board, &self.config);
        }
        if self.check_time_limit() {
            return 0;
        }
        if self.nodes_searched < u64::MAX {
            self.nodes_searched = self.nodes_searched + 1;
        }
        let stand_pat = evaluate(board, &self.config);
        let mut cur_alpha = alpha;
        if stand_pat >= beta {
            return beta;
        }
        if stand_pat > cur_alpha {
            cur_alpha = stand_pat;
        }
        let mut moves = MoveList::new();
        board.generate_capture_moves(&mut moves);
        let n = moves.len();
        let mut scored: Vec<ScoredMove> = Vec::new();
        let mut i: usize = 0;
        while i < n
            invariant
                i <= n,
                n == moves@.len(),
                board@ == m0,
                board.wf(),
                wf_engine(*self),
                controls_quiet(*old(self), *self),
                scored@.len() == i,
                forall|j: int|
                    0 <= j < moves@.len() ==> pseudo_move_ok(
                        m0.squares,
                        m0.to_move,
                        from_of(#[trigger] moves@[j]),
                        to_of(moves@[j]),
                    ),
                forall|j: int|
                    0 <= j < scored@.len() ==> pseudo_move_ok(
                        m0.squares,
                        m0.to_move,
                        from_of((#[trigger] scored@[j]).mv),
                        to_of(scored@[j].mv),
                    ),
            decreases n - i,
        {
            let mv = moves.get(i);
            let sc = self.score_move(board, mv, Move::new(0, 0, None), ply);
            scored.push(ScoredMove { mv, score: sc });
            i = i + 1;
        }
        let ghost unsorted = scored@;
        sort_scored_moves(&mut scored);
        proof {
            assert forall|j: int| 0 <= j < scored@.len() implies pseudo_move_ok(
                m0.squares,
                m0.to_move,
                from_of((#[trigger] scored@[j]).mv),
                to_of(scored@[j].mv),
            ) by {
                assert(came_from(unsorted, scored@[j]));
            }
        }
        let m = scored.len();
        let mut k: usize = 0;
        while k < m
            invariant
                k <= m,
                m == scored@.len(),
                board@ == m0,
                m0 == old(board)@,
                board.wf(),
                wf_engine(*self),
                controls_quiet(*old(self), *self),
                -2_000_000 <= cur_alpha < beta <= 2_000_000,
                alpha <= cur_alpha,
                stand_pat <= cur_alpha,
                stand_pat < beta,
                stand_pat == crate::evaluate::eval_spec(m0.squares, m0.to_move, old(self).config),
                -2_000_000 <= alpha,
                ply < MAX_PLY,
                ply <= Q_SEARCH_DEPTH,
                forall|j: int|
                    0 <= j < scored@.len() ==> pseudo_move_ok(
                        m0.squares,
                        m0.to_move,
                        from_of((#[trigger] scored@[j]).mv),
                        to_of(scored@[j].mv),
                    ),
            decreases m - k,
        {
            let mv = scored[k].mv;
            let res = self.try_search_capture(board, mv, cur_alpha, beta, ply);
            match res {
                None => {},
                Some(score) => {
                    if score >= beta {
                        return beta;
                    }
                    if score > cur_alpha {
                        cur_alpha = score;
                    }
                },
            }
            k = k + 1;
        }
        cur_alpha
    }

    /// Looks the move up in the position's legal-move list and returns
    /// the listed move with those squares, if any.  This revalidates a
    /// move coming out of the transposition table, whose full-hash check
    /// still admits colliding positions.
    fn validated_root_move(board: &mut Board, mv: Move) -> (r: Option<Move>)
        requires
            old(board).wf(),
        ensures
            final(board)@ == old(board)@,
            final(board).wf(),
            r matches Some(m) ==> crate::rules::legal_move_ok(
                old(board)@.squares,
                old(board)@.to_move,
                from_of(m),
                to_of(m),
            ),
            crate::rules::legal_move_ok(
                old(board)@.squares,
                old(board)@.to_move,
                from_of(mv),
                to_of(mv),
            ) ==> r is Some,
    {
        let ghost m0 = board@;
        let legal = board.generate_legal_moves();
        let from_sq = mv.from_sq();
        let to_sq = mv.to_sq();
        let n = legal.len();
        let mut i: usize = 0;
        while i < n
            invariant
                i <= n,
                n == legal@.len(),
                board@ == m0,
                m0 == old(board)@,
                board.wf(),
                from_sq == from_of(mv),
                to_sq == to_of(mv),
                forall|j: int|
                    0 <= j < legal@.len() ==> crate::rules::legal_move_ok(
                        m0.squares,
                        m0.to_move,
                        from_of(#[trigger] legal@[j]),
                        to_of(legal@[j]),
                    ),
                forall|j: int|
                    0 <= j < i ==> !(from_of(#[trigger] legal@[j]) == from_of(mv) && to_of(
                        legal@[j],
                    ) == to_of(mv)),
            decreases n - i,
        {
            let lm = legal.get(i);
            if lm.from_sq() == from_sq && lm.to_sq() == to_sq {
                return Some(lm);
            }
            i = i + 1;
        }
        proof {
            if crate::rules::legal_move_ok(m0.squares, m0.to_move, from_of(mv), to_of(mv)) {
                assert(contains_move(legal@, 0, from_of(mv), to_of(mv)));
            }
        }
        None
    }

    /// The root search: iterative deepening up to `max_depth` (capped at
    /// the ply limit), stopping early on a book hit, a mate score, or an
    /// exhausted time budget.  Returns the best move of the deepest
    /// completed iteration, its score from the mover's view, and the
    /// depth reached; the board comes back exactly as it was.  The
    /// returned move is always the null move, a book move recorded for
    /// the position, or a legal move of the position — every candidate
    /// from the search is revalidated against the legal-move list — and
    /// with no time budget, a positive depth, no book hit and any legal
    /// move available, a legal move is returned.
    #[verifier::rlimit(100)]
    pub fn search(&mut self, board: &mut Board, max_depth: i32, time_limit_ms: Option<u128>) -> (r:
        (Move, i32, i32))
        requires
            wf_engine(*old(self)),
            old(board).wf(),
        ensures
            wf_engine(*final(self)),
            final(board)@ == old(board)@,
            final(board).wf(),
            -2_000_000 <= r.1 <= 2_000_000,
            from_of(r.0) < 90,
            to_of(r.0) < 90,
            is_null_move(r.0) || crate::opening_book::is_book_move(
                old(self).book@,
                old(board)@.hash,
                r.0,
            ) || crate::rules::legal_move_ok(
                old(board)@.squares,
                old(board)@.to_move,
                from_of(r.0),
                to_of(r.0),
            ),
            (time_limit_ms is None && max_depth >= 1 && (forall|i: int|
                0 <= i < old(self).book@.len() ==> (#[trigger] old(self).book@[i]).hash != old(
                    board,
                )@.hash) && (exists|f: int, t: int|
                crate::rules::legal_move_ok(old(board)@.squares, old(board)@.to_move, f, t)))
                ==> crate::rules::legal_move_ok(
                old(board)@.squares,
                old(board)@.to_move,
                from_of(r.0),
                to_of(r.0),
            ),
    {
        let ghost m0 = old(board)@;
        self.clear_history();
        self.clear_killers();
        self.tt.clear();
        self.nodes_searched = 0;
        self.stop_search = false;
        self.start_time = instant_now();
        self.time_limit_ms = time_limit_ms;

        let null_mv = Move::new(0, 0, None);
        let mut best_move_overall = null_mv;
        let mut best_score_overall: i32 = -MATE_VALUE;
        let mut searched_depth: i32 = 1;

        let cap: i32 = if max_depth > 128 {
            128
        } else {
            max_depth
        };
        let ghost shyp = time_limit_ms is None && max_depth >= 1 && (forall|i: int|
            0 <= i < old(self).book@.len() ==> (#[trigger] old(self).book@[i]).hash != m0.hash)
            && (exists|f: int, t: int|
            crate::rules::legal_move_ok(m0.squares, m0.to_move, f, t));
        let mut current_depth: i32 = 1;
        while current_depth <= cap
            invariant_except_break
                current_depth == 1 ==> forall|i: int|
                    0 <= i < self.tt@.len() ==> crate::tt::is_empty_entry(#[trigger] self.tt@[i]),
            invariant
                1 <= current_depth <= 129,
                cap <= 128,
                max_depth >= 1 ==> cap >= 1,
                wf_engine(*self),
                board@ == m0,
                m0 == old(board)@,
                board.wf(),
                self.book@ == old(self).book@,
                self.time_limit_ms == time_limit_ms,
                time_limit_ms is None ==> !self.stop_search,
                -2_000_000 <= best_score_overall <= 2_000_000,
                from_of(best_move_overall) < 90,
                to_of(best_move_overall) < 90,
                1 <= searched_depth <= 128,
                is_null_move(best_move_overall) || crate::rules::legal_move_ok(
                    m0.squares,
                    m0.to_move,
                    from_of(best_move_overall),
                    to_of(best_move_overall),
                ),
                shyp == (time_limit_ms is None && max_depth >= 1 && (forall|i: int|
                    0 <= i < old(self).book@.len() ==> (#[trigger] old(self).book@[i]).hash
                        != m0.hash) && (exists|f: int, t: int|
                    crate::rules::legal_move_ok(m0.squares, m0.to_move, f, t))),
                shyp ==> current_depth == 1 || crate::rules::legal_move_ok(
                    m0.squares,
                    m0.to_move,
                    from_of(best_move_overall),
                    to_of(best_move_overall),
                ),
            ensures
                wf_engine(*self),
                board@ == m0,
                board.wf(),
                self.book@ == old(self).book@,
                -2_000_000 <= best_score_overall <= 2_000_000,
                from_of(best_move_overall) < 90,
                to_of(best_move_overall) < 90,
                1 <= searched_depth <= 128,
                is_null_move(best_move_overall) || crate::rules::legal_move_ok(
                    m0.squares,
                    m0.to_move,
                    from_of(best_move_overall),
                    to_of(best_move_overall),
                ),
                shyp ==> crate::rules::legal_move_ok(
                    m0.squares,
                    m0.to_move,
                    from_of(best_move_overall),
                    to_of(best_move_overall),
                ),
            decreases 129 - current_depth,
        {
            match query_opening_book(&self.book, board) {
                Some(book_move) => {
                    return (book_move, 0, current_depth);
                },
                None => {},
            }
            let ghost pre = *self;
            let (mv, sc) = self.negamax(board, current_depth, -MATE_VALUE, MATE_VALUE, 0);
            proof {
                if shyp && current_depth == 1 {
                    assert(tt_quiet(pre, m0.hash, 1)) by {
                        assert(crate::tt::is_empty_entry(tt_slot(pre, m0.hash)));
                    }
                    assert(crate::rules::legal_move_ok(
                        m0.squares,
                        m0.to_move,
                        from_of(mv),
                        to_of(mv),
                    ));
                    assert(!(from_of(mv) == 0 && to_of(mv) == 0)) by {
                        if from_of(mv) == 0 && to_of(mv) == 0 {
                            assert(pseudo_move_ok(m0.squares, m0.to_move, 0, 0));
                        }
                    }
                }
            }
            if self.stop_search {
                break ;
            }
            if mv.from_sq() != 0 || mv.to_sq() != 0 {
                match Self::validated_root_move(board, mv) {
                    Some(vm) => {
                        best_move_overall = vm;
                        best_score_overall = sc;
                        searched_depth = current_depth;
                    },
                    None => {},
                }
            }
            if best_score_overall > MATE_VALUE - 100 || best_score_overall < -(MATE_VALUE - 100) {
                break ;
            }
            current_depth = current_depth + 1;
        }
        (best_move_overall, best_score_overall, searched_depth)
    }
}

} // verus!
