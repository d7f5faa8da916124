//! The UCI protocol: what the engine reads from the interface and what it
//! answers, as text.
//!
//! The engine keeps no game state: the interface sends the whole position at
//! each move, imposes a time budget rather than a depth, and expects exactly
//! one `bestmove` per `go`. Castling is written king-takes-rook on the board
//! and `e1g1` in UCI: every move crossing this boundary is converted.
use vstd::prelude::*;

use crate::board::{
    spec_legal_moves, initial_state, spec_is_legal, spec_parse_fen, spec_parse_uci, spec_play, spec_uci_text,
    BoardState, Chessboard,
};
use crate::nnue::{decimal, decimal_text, is_decimal, lemma_decimal_reads_back, read_decimal};
use crate::perft::{
    lemma_child_within, lemma_divide_sums_to_perft, lemma_total_take,
    lemma_total_take_within, perft_checked, perft_spec, total,
};
use crate::position::Position;
use crate::search::{Info, Limits, Score, MAX_THREADS};
use crate::text::{
    join, joined, lemma_unsigned_nonneg, parse_unsigned, same_ignoring_case, same_text, texts, unsigned_value, words,
    words_of,
};
use crate::tt::DEFAULT_SIZE_MB;
use crate::types::Move;

verus! {

/// The name announced to the interface.
pub const NAME: &'static str = "ShallowRed";

/// The version announced.
pub const VERSION: &'static str = "0.1.0";

/// The author announced.
pub const AUTHOR: &'static str = "theodubus";

/// The number a token writes, if it writes one no larger than `max`.
pub open spec fn number_at(tokens: Seq<Seq<char>>, i: int, max: int) -> Option<int> {
    if 0 <= i < tokens.len() {
        match unsigned_value(tokens[i]) {
            Some(v) => if v <= max {
                Some(v)
            } else {
                None
            },
            None => None,
        }
    } else {
        None
    }
}

/// A number as a `u64`, if any.
pub open spec fn as_u64(n: Option<int>) -> Option<u64> {
    match n {
        Some(v) => Some(v as u64),
        None => None,
    }
}

/// A number as a `u32`, if any.
pub open spec fn as_u32(n: Option<int>) -> Option<u32> {
    match n {
        Some(v) => Some(v as u32),
        None => None,
    }
}

/// The parameters of `go`, read from token `i` on: each known keyword takes
/// the token after it as its value, which is consumed even when it does not
/// read as a number; an unknown token is skipped.
pub open spec fn go_from(tokens: Seq<Seq<char>>, i: int, limits: Limits, perft: Option<u32>) -> (
    Limits,
    Option<u32>,
)
    decreases tokens.len() + 2 - i,
{
    if i < 0 || i >= tokens.len() {
        (limits, perft)
    } else {
        let t = tokens[i];
        let n64 = as_u64(number_at(tokens, i + 1, u64::MAX as int));
        let n32 = as_u32(number_at(tokens, i + 1, u32::MAX as int));
        if t == "perft"@ {
            go_from(tokens, i + 2, limits, n32)
        } else if t == "wtime"@ {
            go_from(tokens, i + 2, Limits { wtime: n64, ..limits }, perft)
        } else if t == "btime"@ {
            go_from(tokens, i + 2, Limits { btime: n64, ..limits }, perft)
        } else if t == "winc"@ {
            go_from(tokens, i + 2, Limits { winc: n64, ..limits }, perft)
        } else if t == "binc"@ {
            go_from(tokens, i + 2, Limits { binc: n64, ..limits }, perft)
        } else if t == "movestogo"@ {
            go_from(tokens, i + 2, Limits { movestogo: n32, ..limits }, perft)
        } else if t == "movetime"@ {
            go_from(tokens, i + 2, Limits { movetime: n64, ..limits }, perft)
        } else if t == "depth"@ {
            go_from(tokens, i + 2, Limits { depth: n32, ..limits }, perft)
        } else if t == "nodes"@ {
            go_from(tokens, i + 2, Limits { nodes: n64, ..limits }, perft)
        } else if t == "infinite"@ {
            go_from(tokens, i + 1, Limits { infinite: true, ..limits }, perft)
        } else if t == "ponder"@ {
            go_from(tokens, i + 1, Limits { ponder: true, ..limits }, perft)
        } else {
            go_from(tokens, i + 1, limits, perft)
        }
    }
}

/// No constraint at all.
pub open spec fn no_limits() -> Limits {
    Limits {
        wtime: None,
        btime: None,
        winc: None,
        binc: None,
        movestogo: None,
        movetime: None,
        depth: None,
        nodes: None,
        infinite: false,
        ponder: false,
    }
}

/// The number written by the token after `i`, if any.
fn number_after(tokens: &[&str], i: usize, max: u64) -> (r: Option<u64>)
    requires
        i < tokens@.len(),
    ensures
        r == as_u64(number_at(texts(tokens@), i + 1, max as int)),
{
    if tokens.len() - i > 1 {
        proof {
            assert(texts(tokens@)[i + 1] == tokens@[i + 1]@);
        }
        parse_unsigned(tokens[i + 1], max)
    } else {
        None
    }
}

/// The number written by the token after `i`, if any fits a `u32`.
fn number_after_u32(tokens: &[&str], i: usize) -> (r: Option<u32>)
    requires
        i < tokens@.len(),
    ensures
        r == as_u32(number_at(texts(tokens@), i + 1, u32::MAX as int)),
{
    match number_after(tokens, i, 0xffff_ffff) {
        Some(v) => {
            proof {
                lemma_unsigned_nonneg(texts(tokens@)[i + 1]);
                let x = number_at(texts(tokens@), i + 1, u32::MAX as int).unwrap();
                assert(v == x);
                assert(v <= u32::MAX);
            }
            Some(v as u32)
        },
        None => None,
    }
}

/// Reads the parameters of `go`: the constraints, and the depth of a
/// `go perft`. An unknown token is ignored, as the protocol requires; a
/// malformed value is ignored without swallowing what follows.
pub fn parse_go(tokens: &[&str]) -> (r: (Limits, Option<u32>))
    ensures
        r == go_from(texts(tokens@), 0, no_limits(), None),
{
    let mut limits = Limits::default();
    let mut perft: Option<u32> = None;
    let mut i: usize = 0;
    let ghost all = texts(tokens@);
    while i < tokens.len()
        invariant
            all == texts(tokens@),
            i <= tokens@.len(),
            go_from(all, i as int, limits, perft) == go_from(all, 0, no_limits(), None),
        decreases tokens@.len() - i,
    {
        let t = tokens[i];
        proof {
            assert(all[i as int] == t@);
        }
        let n64 = number_after(tokens, i, u64::MAX);
        let n32 = number_after_u32(tokens, i);
        proof {
            assert(n64 == as_u64(number_at(all, i + 1, u64::MAX as int)));
            assert(n32 == as_u32(number_at(all, i + 1, u32::MAX as int)));
        }
        let mut step: usize = 2;
        if same_text(t, "perft") {
            perft = n32;
        } else if same_text(t, "wtime") {
            limits.wtime = n64;
        } else if same_text(t, "btime") {
            limits.btime = n64;
        } else if same_text(t, "winc") {
            limits.winc = n64;
        } else if same_text(t, "binc") {
            limits.binc = n64;
        } else if same_text(t, "movestogo") {
            limits.movestogo = n32;
        } else if same_text(t, "movetime") {
            limits.movetime = n64;
        } else if same_text(t, "depth") {
            limits.depth = n32;
        } else if same_text(t, "nodes") {
            limits.nodes = n64;
        } else if same_text(t, "infinite") {
            limits.infinite = true;
            step = 1;
        } else if same_text(t, "ponder") {
            limits.ponder = true;
            step = 1;
        } else {
            step = 1;
        }
        if step == 2 && tokens.len() - i > 1 {
            i = i + 2;
        } else {
            proof {
                if step == 2 {
                    assert(go_from(all, i + 2, limits, perft) == (limits, perft));
                    assert(go_from(all, i + 1, limits, perft) == (limits, perft));
                }
            }
            i = i + 1;
        }
    }
    (limits, perft)
}

/// The first position from `k` on where a word appears.
pub open spec fn first_from(words: Seq<Seq<char>>, w: Seq<char>, k: int) -> Option<int>
    decreases words.len() - k,
{
    if k < 0 || k >= words.len() {
        None
    } else if words[k] == w {
        Some(k)
    } else {
        first_from(words, w, k + 1)
    }
}

proof fn lemma_first_from(words: Seq<Seq<char>>, w: Seq<char>, k: int)
    requires
        0 <= k,
    ensures
        first_from(words, w, k) matches Some(i) ==> k <= i < words.len() && words[i] == w,
    decreases words.len() - k,
{
    if k < words.len() && words[k] != w {
        lemma_first_from(words, w, k + 1);
    }
}

/// Whether an option line can be read: a `value` keyword, if any, never
/// comes before the first word after `name`.
pub open spec fn option_words_ok(words: Seq<Seq<char>>) -> bool {
    match (first_from(words, "name"@, 0), first_from(words, "value"@, 0)) {
        (Some(n), Some(v)) => n + 1 <= v,
        _ => true,
    }
}

/// The first position from `k` on where a word appears.
fn position_of(words: &[&str], w: &str, k: usize) -> (r: Option<usize>)
    ensures
        r is None <==> first_from(texts(words@), w@, k as int) is None,
        r matches Some(i) ==> first_from(texts(words@), w@, k as int) == Some(i as int) && i
            < words@.len(),
    decreases words@.len() - k,
{
    if k >= words.len() {
        return None;
    }
    proof {
        assert(texts(words@)[k as int] == words@[k as int]@);
    }
    if same_text(words[k], w) {
        Some(k)
    } else {
        position_of(words, w, k + 1)
    }
}

/// Reads the name and the value of a `setoption name <name> value <value>`:
/// the name is every word between `name` and `value`, joined by spaces; the
/// value the word after `value`. `None` without the keyword `name`.
pub fn parse_option<'a>(words: &[&'a str]) -> (r: Option<(String, Option<&'a str>)>)
    requires
        option_words_ok(texts(words@)),
    ensures
        first_from(texts(words@), "name"@, 0) is None ==> r is None,
        first_from(texts(words@), "name"@, 0) matches Some(n) ==> r matches Some((name, value))
            && name@ == joined(
            texts(words@).subrange(
                n + 1,
                match first_from(texts(words@), "value"@, 0) {
                    Some(v) => v,
                    None => words@.len() as int,
                },
            ),
        ) && value == match first_from(texts(words@), "value"@, 0) {
            Some(v) => if v + 1 < words@.len() {
                Some(words@[v + 1])
            } else {
                None
            },
            None => None,
        },
{
    proof {
        lemma_first_from(texts(words@), "name"@, 0);
        lemma_first_from(texts(words@), "value"@, 0);
    }
    let name_at = match position_of(words, "name", 0) {
        Some(i) => i,
        None => {
            return None;
        },
    };
    let value_at = position_of(words, "value", 0);
    let end = match value_at {
        Some(v) => v,
        None => words.len(),
    };
    proof {
        assert(name_at < words@.len());
        match value_at {
            Some(v) => {
                assert(first_from(texts(words@), "value"@, 0) == Some(v as int));
                assert(name_at + 1 <= v);
            },
            None => {},
        }
    }
    let (head, _) = words.split_at(end);
    let (_, middle) = head.split_at(name_at + 1);
    proof {
        assert(texts(middle@) =~= texts(words@).subrange(name_at + 1, end as int));
    }
    let name = join(middle);
    let value = match value_at {
        Some(v) => if words.len() - v > 1 {
            Some(words[v + 1])
        } else {
            None
        },
        None => None,
    };
    Some((name, value))
}

/// What an option line changes: the table size, the thread count, or
/// nothing. Names ignore ASCII case; an unreadable value changes nothing.
#[derive(Clone, Copy, Debug, PartialEq, Eq, Structural)]
pub enum Setting {
    /// `Hash`, in mebibytes.
    Hash(usize),
    /// `Threads`.
    Threads(usize),
    /// Any other option, or a value that does not read.
    Ignored,
}

/// The value word of an option line, if any.
pub open spec fn option_value(words: Seq<Seq<char>>) -> Option<Seq<char>> {
    match first_from(words, "value"@, 0) {
        Some(v) => if v + 1 < words.len() {
            Some(words[v + 1])
        } else {
            None
        },
        None => None,
    }
}

/// The name of an option line: the words after `name`, up to `value`.
pub open spec fn option_name(words: Seq<Seq<char>>, n: int) -> Seq<char> {
    joined(
        words.subrange(
            n + 1,
            match first_from(words, "value"@, 0) {
                Some(v) => v,
                None => words.len() as int,
            },
        ),
    )
}

/// The setting an option line makes.
pub open spec fn setting_spec(words: Seq<Seq<char>>) -> Setting {
    match first_from(words, "name"@, 0) {
        None => Setting::Ignored,
        Some(n) => match option_value(words) {
            None => Setting::Ignored,
            Some(v) => match unsigned_value(v) {
                Some(x) => if x > usize::MAX {
                    Setting::Ignored
                } else if same_ignoring_case(option_name(words, n), "hash"@) {
                    Setting::Hash(x as usize)
                } else if same_ignoring_case(option_name(words, n), "threads"@) {
                    Setting::Threads(x as usize)
                } else {
                    Setting::Ignored
                },
                None => Setting::Ignored,
            },
        },
    }
}

/// The setting an option line makes.
pub fn setting_of(words: &[&str]) -> (r: Setting)
    requires
        option_words_ok(texts(words@)),
    ensures
        r == setting_spec(texts(words@)),
{
    let (name, value) = match parse_option(words) {
        Some(found) => found,
        None => {
            return Setting::Ignored;
        },
    };
    proof {
        lemma_first_from(texts(words@), "value"@, 0);
        match first_from(texts(words@), "value"@, 0) {
            Some(v) => if v + 1 < words@.len() {
                assert(texts(words@)[v + 1] == words@[v + 1]@);
            },
            None => {},
        }
    }
    let ghost all = texts(words@);
    let ghost n = first_from(all, "name"@, 0).unwrap();
    proof {
        match option_value(all) {
            Some(t) => lemma_unsigned_nonneg(t),
            None => {},
        }
        assert(name@ == option_name(all, n));
        match value {
            Some(v) => assert(option_value(all) == Some(v@)),
            None => assert(option_value(all) is None),
        }
    }
    let amount = match value {
        Some(v) => match parse_unsigned(v, usize::MAX as u64) {
            Some(n) => Some(n as usize),
            None => None,
        },
        None => None,
    };
    match amount {
        Some(n) => if crate::text::eq_ignore_ascii_case(name.as_str(), "hash") {
            Setting::Hash(n)
        } else if crate::text::eq_ignore_ascii_case(name.as_str(), "threads") {
            Setting::Threads(n)
        } else {
            Setting::Ignored
        },
        None => Setting::Ignored,
    }
}

/// The UCI texts of a line of moves, each converted on the board where it is
/// played; the line stops at its first move that is not legal there.
pub open spec fn pv_texts(s: BoardState, pv: Seq<Move>) -> Seq<Seq<char>>
    decreases pv.len(),
{
    if pv.len() == 0 || !spec_is_legal(s, pv[0]) {
        Seq::empty()
    } else {
        seq![spec_uci_text(s, pv[0])] + pv_texts(spec_play(s, pv[0]), pv.drop_first())
    }
}

/// A principal variation in UCI notation, moves separated by spaces. A
/// castling further down the line is converted on its own board; an
/// incoherent move cuts the line rather than producing gibberish.
pub fn pv_to_uci(root: &Chessboard, pv: &[Move]) -> (r: String)
    requires
        forall|i: int| 0 <= i < pv@.len() ==> (#[trigger] pv@[i]).wf(),
    ensures
        r@ == joined(pv_texts(root@, pv@)),
{
    let mut board = root.duplicate();
    let mut parts: Vec<String> = Vec::new();
    let mut i: usize = 0;
    let mut stopped = false;
    proof {
        assert(pv@.subrange(0, pv@.len() as int) =~= pv@);
        assert(parts@.map_values(|p: String| p@) + pv_texts(board@, pv@) =~= pv_texts(root@, pv@));
    }
    while i < pv.len() && !stopped
        invariant
            i <= pv@.len(),
            forall|k: int| 0 <= k < pv@.len() ==> (#[trigger] pv@[k]).wf(),
            parts@.map_values(|p: String| p@) + (if stopped {
                Seq::empty()
            } else {
                pv_texts(board@, pv@.subrange(i as int, pv@.len() as int))
            }) == pv_texts(root@, pv@),
        decreases pv@.len() - i, (if stopped {
            0int
        } else {
            1int
        }),
    {
        let mv = pv[i];
        let ghost rest = pv@.subrange(i as int, pv@.len() as int);
        proof {
            assert(rest[0] == mv);
            assert(rest.drop_first() =~= pv@.subrange(i + 1, pv@.len() as int));
        }
        if !board.is_legal(mv) {
            stopped = true;
        } else {
            let text = board.uci_text(mv);
            let ghost before = parts@;
            parts.push(text);
            proof {
                assert(parts@.map_values(|p: String| p@) =~= before.map_values(|p: String| p@).push(
                    text@,
                ));
                assert(seq![text@] + pv_texts(spec_play(board@, mv), rest.drop_first()) =~= seq![
                    text@,
                ].add(pv_texts(spec_play(board@, mv), rest.drop_first())));
            }
            board = board.play(mv);
            i = i + 1;
        }
    }
    proof {
        if !stopped {
            assert(pv@.subrange(i as int, pv@.len() as int).len() == 0);
        }
        assert(parts@.map_values(|p: String| p@) =~= pv_texts(root@, pv@));
    }
    join_owned(&parts)
}

/// Owned texts joined with single spaces between them.
fn join_owned(parts: &Vec<String>) -> (r: String)
    ensures
        r@ == joined(parts@.map_values(|p: String| p@)),
{
    let mut out = String::new();
    let mut i: usize = 0;
    while i < parts.len()
        invariant
            i <= parts@.len(),
            out@ == joined(parts@.map_values(|p: String| p@).subrange(0, i as int)),
        decreases parts@.len() - i,
    {
        let ghost all = parts@.map_values(|p: String| p@);
        proof {
            assert(all.subrange(0, i + 1).drop_last() =~= all.subrange(0, i as int));
            assert(all.subrange(0, i + 1).last() == parts@[i as int]@);
            if i == 0 {
                assert(all.subrange(0, 1) =~= seq![parts@[0]@]);
            }
        }
        if i > 0 {
            out.append(" ");
            proof {
                reveal_strlit(" ");
            }
        }
        out.append(parts[i].as_str());
        i = i + 1;
    }
    proof {
        assert(parts@.map_values(|p: String| p@).subrange(0, parts@.len() as int) =~= parts@.map_values(
            |p: String| p@,
        ));
    }
    out
}

/// The text of a signed integer in decimal.
pub fn signed_decimal(n: i64) -> (r: String)
    ensures
        r@ == decimal_text(n as int),
{
    if n < 0 {
        let magnitude: u64 = if n == i64::MIN {
            0x8000_0000_0000_0000
        } else {
            (-n) as u64
        };
        let mut out = String::from_str("-");
        out.append(decimal(magnitude).as_str());
        proof {
            reveal_strlit("-");
            assert(out@ =~= decimal_text(n as int));
        }
        out
    } else {
        decimal(n as u64)
    }
}

/// What the engine answers to `uci`: its name, its options, then `uciok`.
pub fn identification() -> (r: Vec<String>)
    ensures
        r@.len() == 6,
        r@[0]@ == "id name "@ + NAME@ + " "@ + VERSION@,
        r@[1]@ == "id author "@ + AUTHOR@,
        r@[2]@ == "option name Hash type spin default "@ + decimal_text(DEFAULT_SIZE_MB as int)
            + " min 1 max 4096"@,
        r@[3]@ == "option name Ponder type check default false"@,
        r@[4]@ == "option name Threads type spin default 1 min 1 max "@ + decimal_text(
            MAX_THREADS as int,
        ),
        r@[5]@ == "uciok"@,
{
    let mut lines: Vec<String> = Vec::new();
    let mut name = String::from_str("id name ");
    name.append(NAME);
    name.append(" ");
    name.append(VERSION);
    lines.push(name);
    let mut author = String::from_str("id author ");
    author.append(AUTHOR);
    lines.push(author);
    let mut hash = String::from_str("option name Hash type spin default ");
    hash.append(decimal(DEFAULT_SIZE_MB as u64).as_str());
    hash.append(" min 1 max 4096");
    lines.push(hash);
    // The engine announces it can ponder; the interface decides to use it
    // by sending `go ponder`. Off by default.
    lines.push(String::from_str("option name Ponder type check default false"));
    let mut threads = String::from_str("option name Threads type spin default 1 min 1 max ");
    threads.append(decimal(MAX_THREADS as u64).as_str());
    lines.push(threads);
    lines.push(String::from_str("uciok"));
    lines
}

/// The `bestmove` line: `0000` when there is no move; the ponder guess,
/// converted on the board after the best move, only when both are legal.
pub open spec fn bestmove_text(s: BoardState, best: Option<Move>, ponder: Option<Move>) -> Seq<
    char,
> {
    match best {
        None => "bestmove 0000"@,
        Some(b) => "bestmove "@ + spec_uci_text(s, b) + match ponder {
            Some(p) => if spec_is_legal(s, b) && spec_is_legal(spec_play(s, b), p) {
                " ponder "@ + spec_uci_text(spec_play(s, b), p)
            } else {
                Seq::empty()
            },
            None => Seq::empty(),
        },
    }
}

/// The `bestmove` line, with the ponder guess when there is one.
pub fn bestmove_line(board: &Chessboard, best: Option<Move>, ponder: Option<Move>) -> (r: String)
    requires
        best matches Some(b) ==> b.wf(),
        ponder matches Some(p) ==> p.wf(),
    ensures
        r@ == bestmove_text(board@, best, ponder),
{
    let best = match best {
        Some(b) => b,
        None => {
            return String::from_str("bestmove 0000");
        },
    };
    let mut line = String::from_str("bestmove ");
    line.append(board.uci_text(best).as_str());
    if let Some(guess) = ponder {
        if board.is_legal(best) {
            let after = board.play(best);
            if after.is_legal(guess) {
                line.append(" ponder ");
                line.append(after.uci_text(guess).as_str());
                proof {
                    assert(line@ =~= bestmove_text(board@, Some(best), ponder));
                }
                return line;
            }
        }
    }
    proof {
        assert(line@ =~= bestmove_text(board@, Some(best), ponder));
    }
    line
}

/// The text of a score: `cp` and centipawns, or `mate` and moves.
pub open spec fn score_text(score: Score) -> Seq<char> {
    match score {
        Score::Cp(cp) => "cp "@ + decimal_text(cp as int),
        Score::Mate(moves) => "mate "@ + decimal_text(moves as int),
    }
}

/// The nodes per second, if the time is not zero.
pub open spec fn nps_text(nodes: u64, time_ms: u64) -> Seq<char> {
    if time_ms == 0 {
        Seq::empty()
    } else {
        let scaled = if nodes * 1000 > u64::MAX {
            u64::MAX as int
        } else {
            nodes * 1000
        };
        " nps "@ + decimal_text(scaled / (time_ms as int))
    }
}

/// The `info` line of a completed iteration.
pub open spec fn info_text(root: BoardState, info: Info) -> Seq<char> {
    "info depth "@ + decimal_text(info.depth as int) + " score "@ + score_text(info.score)
        + " nodes "@ + decimal_text(info.nodes as int) + " time "@ + decimal_text(
        info.time_ms as int,
    ) + nps_text(info.nodes, info.time_ms) + " hashfull "@ + decimal_text(info.hashfull as int)
        + " pv "@ + joined(pv_texts(root, info.pv@))
}

/// Whether `text` is `head`, then `label`, then `number`, then ` nodes `,
/// then `tail`.
pub open spec fn framed(
    text: Seq<char>,
    head: Seq<char>,
    label: Seq<char>,
    number: Seq<char>,
    tail: Seq<char>,
) -> bool {
    text == head + label + number + " nodes "@ + tail
}

/// An `info` line reports the search's own score, from the side to move's
/// point of view: after ` score cp ` (or ` score mate `) and before
/// ` nodes ` stands a decimal that reads back as the centipawns (or the
/// moves to mate), sign included.
pub proof fn lemma_info_reports_the_score(root: BoardState, info: Info)
    ensures
        info.score matches Score::Cp(c) ==> exists|head: Seq<char>, number: Seq<char>, tail: Seq<char>|
            #[trigger] framed(info_text(root, info), head, " score cp "@, number, tail)
                && is_decimal(number) && read_decimal(number) == c,
        info.score matches Score::Mate(m) ==> exists|head: Seq<char>, number: Seq<char>, tail: Seq<char>|
            #[trigger] framed(info_text(root, info), head, " score mate "@, number, tail)
                && is_decimal(number) && read_decimal(number) == m,
{
    let head = "info depth "@ + decimal_text(info.depth as int);
    let tail = decimal_text(info.nodes as int) + " time "@ + decimal_text(info.time_ms as int)
        + nps_text(info.nodes, info.time_ms) + " hashfull "@ + decimal_text(info.hashfull as int)
        + " pv "@ + joined(pv_texts(root, info.pv@));
    match info.score {
        Score::Cp(c) => {
            let number = decimal_text(c as int);
            lemma_decimal_reads_back(c as int);
            reveal_strlit(" score cp ");
            reveal_strlit(" score ");
            reveal_strlit("cp ");
            assert(info_text(root, info) =~= head + " score cp "@ + number + " nodes "@ + tail);
            assert(framed(info_text(root, info), head, " score cp "@, number, tail));
        },
        Score::Mate(m) => {
            let number = decimal_text(m as int);
            lemma_decimal_reads_back(m as int);
            reveal_strlit(" score mate ");
            reveal_strlit(" score ");
            reveal_strlit("mate ");
            assert(info_text(root, info) =~= head + " score mate "@ + number + " nodes "@ + tail);
            assert(framed(info_text(root, info), head, " score mate "@, number, tail));
        },
    }
}

/// The `info` line of a completed iteration. A search too fast for the clock
/// announces no speed.
pub fn info_line(root: &Chessboard, info: &Info) -> (r: String)
    requires
        forall|i: int| 0 <= i < info.pv@.len() ==> (#[trigger] info.pv@[i]).wf(),
    ensures
        r@ == info_text(root@, *info),
{
    let mut line = String::from_str("info depth ");
    line.append(decimal(info.depth as u64).as_str());
    line.append(" score ");
    match info.score {
        Score::Cp(cp) => {
            line.append("cp ");
            line.append(signed_decimal(cp as i64).as_str());
        },
        Score::Mate(moves) => {
            line.append("mate ");
            line.append(signed_decimal(moves as i64).as_str());
        },
    }
    line.append(" nodes ");
    line.append(decimal(info.nodes).as_str());
    line.append(" time ");
    line.append(decimal(info.time_ms).as_str());
    if info.time_ms != 0 {
        let scaled: u64 = if info.nodes > u64::MAX / 1000 {
            u64::MAX
        } else {
            info.nodes * 1000
        };
        line.append(" nps ");
        line.append(decimal(scaled / info.time_ms).as_str());
    }
    line.append(" hashfull ");
    line.append(decimal(info.hashfull as u64).as_str());
    line.append(" pv ");
    line.append(pv_to_uci(root, info.pv.as_slice()).as_str());
    proof {
        assert(line@ =~= info_text(root@, *info));
    }
    line
}

/// Where the FEN fields of a `position fen` end: at the first `moves`.
pub open spec fn fen_end(words: Seq<Seq<char>>) -> int {
    match first_from(words, "moves"@, 1) {
        Some(k) => k,
        None => words.len() as int,
    }
}

/// The starting board a `position` command names: `None` without
/// `startpos` or `fen`; `Some(None)` for a FEN the board refuses.
pub open spec fn named_start(words: Seq<Seq<char>>) -> Option<Option<BoardState>> {
    if words.len() > 0 && words[0] == "startpos"@ {
        Some(Some(initial_state()))
    } else if words.len() > 0 && words[0] == "fen"@ {
        Some(spec_parse_fen(joined(words.subrange(1, fen_end(words)))))
    } else {
        None
    }
}

/// The moves a `position` command plays: those after `moves`.
pub open spec fn listed_moves(words: Seq<Seq<char>>) -> Seq<Seq<char>> {
    if words.len() > 0 && words[0] == "startpos"@ {
        if words.len() > 1 && words[1] == "moves"@ {
            words.subrange(2, words.len() as int)
        } else {
            Seq::empty()
        }
    } else if fen_end(words) < words.len() {
        words.subrange(fen_end(words) + 1, words.len() as int)
    } else {
        Seq::empty()
    }
}

/// The board after playing moves written in UCI, if every one reads as a
/// legal move where it is played.
pub open spec fn replay(s: BoardState, moves: Seq<Seq<char>>) -> Option<BoardState>
    decreases moves.len(),
{
    if moves.len() == 0 {
        Some(s)
    } else {
        match spec_parse_uci(s, moves[0]) {
            Some(m) => if m.wf() && spec_is_legal(s, m) {
                replay(spec_play(s, m), moves.drop_first())
            } else {
                None
            },
            None => None,
        }
    }
}

/// The message refusing a `position` command without a start.
pub open spec fn no_start_message() -> Seq<char> {
    "commande `position` sans `startpos` ni `fen`"@
}

/// Reads the arguments of `position startpos [moves ...]` or
/// `position fen <fields> [moves ...]` into a position. A position is
/// refused rather than half accepted: a partly played one would make the
/// engine and the interface diverge silently.
pub fn position_command(tokens: &[&str]) -> (r: Result<Position, String>)
    ensures
        named_start(texts(tokens@)) is None ==> (r matches Err(e) && e@ == no_start_message()),
        named_start(texts(tokens@)) == Some(None::<BoardState>) ==> r is Err,
        named_start(texts(tokens@)) matches Some(Some(start)) ==> (r is Ok <==> replay(
            start,
            listed_moves(texts(tokens@)),
        ) is Some),
        r matches Ok(p) ==> p.wf() && (named_start(texts(tokens@)) matches Some(Some(start))
            && Some(p.board_spec()@) == replay(start, listed_moves(texts(tokens@)))),
{
    let ghost all = texts(tokens@);
    if tokens.len() == 0 {
        return Err(String::from_str("commande `position` sans `startpos` ni `fen`"));
    }
    proof {
        assert(all[0] == tokens@[0]@);
        if tokens@.len() > 1 {
            assert(all[1] == tokens@[1]@);
        }
        lemma_first_from(all, "moves"@, 1);
    }
    let mut position: Position;
    let mut next: usize;
    if same_text(tokens[0], "startpos") {
        position = Position::startpos();
        next = if tokens.len() > 1 && same_text(tokens[1], "moves") {
            2
        } else {
            tokens.len()
        };
        proof {
            if next == tokens@.len() {
                assert(listed_moves(all) =~= all.subrange(next as int, all.len() as int));
            } else {
                assert(listed_moves(all) == all.subrange(next as int, all.len() as int));
            }
        }
    } else if same_text(tokens[0], "fen") {
        let end = match position_of(tokens, "moves", 1) {
            Some(k) => k,
            None => tokens.len(),
        };
        let (head, _) = tokens.split_at(end);
        let (_, fields) = head.split_at(1);
        proof {
            assert(texts(fields@) =~= all.subrange(1, end as int));
            assert(end == fen_end(all));
        }
        let fen = join(fields);
        position = match Position::from_fen(fen.as_str()) {
            Ok(p) => p,
            Err(e) => {
                return Err(e);
            },
        };
        next = if end < tokens.len() {
            end + 1
        } else {
            tokens.len()
        };
        proof {
            assert(listed_moves(all) =~= all.subrange(next as int, all.len() as int));
        }
    } else {
        return Err(String::from_str("commande `position` sans `startpos` ni `fen`"));
    }
    let ghost start = position.board_spec()@;
    proof {
        assert(named_start(all) == Some(Some(start)));
    }
    while next < tokens.len()
        invariant
            all == texts(tokens@),
            named_start(all) == Some(Some(start)),
            next <= tokens@.len(),
            position.wf(),
            replay(start, listed_moves(all)) == replay(
                position.board_spec()@,
                all.subrange(next as int, all.len() as int),
            ),
        decreases tokens@.len() - next,
    {
        let ghost rest = all.subrange(next as int, all.len() as int);
        proof {
            assert(rest[0] == tokens@[next as int]@);
            assert(rest.drop_first() =~= all.subrange(next + 1, all.len() as int));
        }
        match position.play_uci(tokens[next]) {
            Ok(_) => {},
            Err(e) => {
                let mut message = e;
                message.append(" — position ignorée");
                return Err(message);
            },
        }
        next = next + 1;
    }
    proof {
        assert(all.subrange(next as int, all.len() as int) =~= Seq::<Seq<char>>::empty());
    }
    Ok(position)
}

/// The line of a root move in `go perft`: the move, then its leaves.
pub open spec fn perft_entry_text(s: BoardState, mv: Move, count: int) -> Seq<char> {
    spec_uci_text(s, mv) + ": "@ + decimal_text(count)
}

/// The lines of `go perft <depth>`: each root move with the leaves below it,
/// in generation order, a blank line, then the total. At depth zero there is
/// no root move and the total is zero.
pub open spec fn perft_text(s: BoardState, depth: nat) -> Seq<Seq<char>> {
    let moves = if depth == 0 {
        Seq::<Move>::empty()
    } else {
        spec_legal_moves(s)
    };
    moves.map(
        |i: int, m: Move| perft_entry_text(s, m, perft_spec(spec_play(s, m), (depth - 1) as nat) as int),
    ) + seq![
        Seq::<char>::empty(),
        "Nodes searched: "@ + decimal_text(
            if depth == 0 {
                0
            } else {
                perft_spec(s, depth) as int
            },
        ),
    ]
}

/// The lines of `go perft <n>`: each root move and its leaves, a blank
/// line, the total. `None` if the count does not fit a `u64`.
pub fn perft_lines(board: &Chessboard, depth: u32) -> (r: Option<Vec<String>>)
    ensures
        r is Some <==> perft_spec(board@, depth as nat) <= u64::MAX,
        r matches Some(lines) ==> lines@.map_values(|l: String| l@) == perft_text(
            board@,
            depth as nat,
        ),
{
    if perft_checked(board, depth).is_none() {
        return None;
    }
    let entries = crate::perft::divide(board, depth);
    let ghost moves = if depth == 0 {
        Seq::<Move>::empty()
    } else {
        spec_legal_moves(board@)
    };
    let ghost f = |i: int, m: Move|
        perft_entry_text(board@, m, perft_spec(spec_play(board@, m), (depth - 1) as nat) as int);
    proof {
        if depth >= 1 {
            assert forall|i: int| 0 <= i < moves.len() implies perft_spec(
                spec_play(board@, #[trigger] moves[i]),
                (depth - 1) as nat,
            ) <= u64::MAX by {
                lemma_child_within(board@, moves, (depth - 1) as nat, i);
            }
            lemma_divide_sums_to_perft(board@, depth as nat, entries@);
        }
    }
    let mut lines: Vec<String> = Vec::new();
    let mut sum: u64 = 0;
    let mut k: usize = 0;
    while k < entries.len()
        invariant
            k <= entries@.len(),
            entries@.len() == moves.len(),
            forall|i: int| 0 <= i < entries@.len() ==> (#[trigger] entries@[i]).0.wf(),
            forall|i: int|
                0 <= i < entries@.len() ==> #[trigger] entries@[i] == (
                    moves[i],
                    perft_spec(spec_play(board@, moves[i]), (depth - 1) as nat) as u64,
                ),
            depth >= 1 ==> total(entries@) == perft_spec(board@, depth as nat),
            depth == 0 ==> entries@.len() == 0,
            perft_spec(board@, depth as nat) <= u64::MAX,
            forall|i: int| 0 <= i < moves.len() ==> perft_spec(
                spec_play(board@, #[trigger] moves[i]),
                (depth - 1) as nat,
            ) <= u64::MAX,
            sum as int == total(entries@.take(k as int)),
            f == (|i: int, m: Move|
                perft_entry_text(board@, m, perft_spec(spec_play(board@, m), (depth - 1) as nat) as int)),
            lines@.map_values(|l: String| l@) == moves.take(k as int).map(f),
        decreases entries@.len() - k,
    {
        let (mv, nodes) = entries[k];
        proof {
            lemma_total_take(entries@, k as int + 1);
            lemma_total_take_within(entries@, k as int + 1);
            assert(entries@[k as int] == (mv, nodes));
            assert(nodes as int == perft_spec(spec_play(board@, moves[k as int]), (depth - 1) as nat));
        }
        sum = sum + nodes;
        let mut line = board.uci_text(mv);
        let ghost head = line@;
        line.append(": ");
        let ghost middle = line@;
        let text = decimal(nodes);
        line.append(text.as_str());
        let ghost before = lines@;
        proof {
            reveal_strlit(": ");
            assert(head == spec_uci_text(board@, moves[k as int]));
            assert(middle == head + ": "@);
            assert(line@ == middle + text@);
            assert(text@ == decimal_text(perft_spec(spec_play(board@, moves[k as int]), (depth - 1) as nat) as int));
            assert(line@ == perft_entry_text(
                board@,
                moves[k as int],
                perft_spec(spec_play(board@, moves[k as int]), (depth - 1) as nat) as int,
            ));
            assert(line@ == f(k as int, moves[k as int]));
        }
        lines.push(line);
        proof {
            assert(lines@.map_values(|l: String| l@) =~= before.map_values(|l: String| l@).push(f(k as int, moves[k as int])));
            assert(moves.take(k as int + 1) =~= moves.take(k as int).push(moves[k as int]));
            assert(moves.take(k as int + 1).map(f) =~= moves.take(k as int).map(f).push(f(k as int, moves[k as int])));
        }
        k = k + 1;
    }
    proof {
        assert(entries@.take(k as int) =~= entries@);
        assert(moves.take(k as int) =~= moves);
    }
    lines.push(String::new());
    let mut summary = String::from_str("Nodes searched: ");
    summary.append(decimal(sum).as_str());
    lines.push(summary);
    proof {
        reveal_strlit("");
        assert(lines@.map_values(|l: String| l@) =~= perft_text(board@, depth as nat));
    }
    Some(lines)
}

/// A command of the interface, with what it carries.
pub enum Command<'a> {
    /// `uci`: identify.
    Uci,
    /// `isready`.
    IsReady,
    /// `ucinewgame`: forget the previous game.
    NewGame,
    /// `setoption`, with the words after it.
    SetOption(Vec<&'a str>),
    /// `position`, with the words after it.
    Position(Vec<&'a str>),
    /// `go`: the constraints, and the depth of a `go perft`.
    Go(Limits, Option<u32>),
    /// `stop`.
    Stop,
    /// `ponderhit`: the opponent played the move bet on.
    PonderHit,
    /// `d`: show the board.
    Display,
    /// `bench`, with its depth.
    Bench(u32),
    /// `quit`.
    Quit,
    /// An empty line or an unknown command, ignored as the protocol requires.
    Ignored,
}

/// Whether a word names a command the engine knows.
pub open spec fn known_command(c: Seq<char>) -> bool {
    ||| c == "uci"@
    ||| c == "isready"@
    ||| c == "ucinewgame"@
    ||| c == "setoption"@
    ||| c == "position"@
    ||| c == "go"@
    ||| c == "stop"@
    ||| c == "ponderhit"@
    ||| c == "d"@
    ||| c == "bench"@
    ||| c == "quit"@
}

/// Reads a command line.
pub fn parse_command<'a>(line: &'a str) -> (r: Command<'a>)
    ensures
        words_of(line@).len() == 0 ==> r is Ignored,
        words_of(line@).len() > 0 && words_of(line@)[0] == "uci"@ ==> r is Uci,
        words_of(line@).len() > 0 && words_of(line@)[0] == "isready"@ ==> r is IsReady,
        words_of(line@).len() > 0 && words_of(line@)[0] == "ucinewgame"@ ==> r is NewGame,
        words_of(line@).len() > 0 && words_of(line@)[0] == "setoption"@ ==> (r matches Command::SetOption(v)
            && texts(v@) == words_of(line@).drop_first()),
        words_of(line@).len() > 0 && words_of(line@)[0] == "position"@ ==> (r matches Command::Position(v)
            && texts(v@) == words_of(line@).drop_first()),
        words_of(line@).len() > 0 && words_of(line@)[0] == "go"@ ==> (r matches Command::Go(l, p) && (l, p)
            == go_from(words_of(line@).drop_first(), 0, no_limits(), None)),
        words_of(line@).len() > 0 && words_of(line@)[0] == "stop"@ ==> r is Stop,
        words_of(line@).len() > 0 && words_of(line@)[0] == "ponderhit"@ ==> r is PonderHit,
        words_of(line@).len() > 0 && words_of(line@)[0] == "d"@ ==> r is Display,
        words_of(line@).len() > 0 && words_of(line@)[0] == "bench"@ ==> r == Command::Bench(
            match number_at(words_of(line@).drop_first(), 0, u32::MAX as int) {
                Some(d) => d as u32,
                None => crate::bench::DEFAULT_DEPTH,
            },
        ),
        words_of(line@).len() > 0 && words_of(line@)[0] == "quit"@ ==> r is Quit,
        words_of(line@).len() > 0 && !known_command(words_of(line@)[0]) ==> r is Ignored,
{
    let tokens = words(line);
    let ghost ws = words_of(line@);
    proof {
        reveal_strlit("uci");
        reveal_strlit("isready");
        reveal_strlit("ucinewgame");
        reveal_strlit("setoption");
        reveal_strlit("position");
        reveal_strlit("go");
        reveal_strlit("stop");
        reveal_strlit("ponderhit");
        reveal_strlit("d");
        reveal_strlit("bench");
        reveal_strlit("quit");
        assert("setoption"@[0] == 's' && "ponderhit"@[0] == 'p');
        assert("setoption"@ != "ponderhit"@);
        assert("stop"@[0] == 's' && "quit"@[0] == 'q');
        assert("stop"@ != "quit"@);
    }
    if tokens.len() == 0 {
        return Command::Ignored;
    }
    let command = tokens[0];
    let (_, rest) = tokens.as_slice().split_at(1);
    proof {
        assert(ws[0] == command@);
        assert(texts(rest@) =~= ws.drop_first());
    }
    if same_text(command, "uci") {
        Command::Uci
    } else if same_text(command, "isready") {
        Command::IsReady
    } else if same_text(command, "ucinewgame") {
        Command::NewGame
    } else if same_text(command, "setoption") {
        Command::SetOption(vstd::slice::slice_to_vec(rest))
    } else if same_text(command, "position") {
        Command::Position(vstd::slice::slice_to_vec(rest))
    } else if same_text(command, "go") {
        let (limits, perft) = parse_go(rest);
        Command::Go(limits, perft)
    } else if same_text(command, "stop") {
        Command::Stop
    } else if same_text(command, "ponderhit") {
        Command::PonderHit
    } else if same_text(command, "d") {
        Command::Display
    } else if same_text(command, "bench") {
        let depth = if rest.len() > 0 {
            proof {
                assert(texts(rest@)[0] == rest@[0]@);
                lemma_unsigned_nonneg(rest@[0]@);
            }
            match parse_unsigned(rest[0], 0xffff_ffff) {
                Some(d) => d as u32,
                None => crate::bench::DEFAULT_DEPTH,
            }
        } else {
            crate::bench::DEFAULT_DEPTH
        };
        proof {
            assert(depth == match number_at(ws.drop_first(), 0, u32::MAX as int) {
                Some(d) => d as u32,
                None => crate::bench::DEFAULT_DEPTH,
            });
        }
        Command::Bench(depth)
    } else if same_text(command, "quit") {
        Command::Quit
    } else {
        Command::Ignored
    }
}

/// Whether an option line can be read without breaking: see
/// [`option_words_ok`].
pub fn option_words_readable(words: &[&str]) -> (r: bool)
    ensures
        r == option_words_ok(texts(words@)),
{
    proof {
        lemma_first_from(texts(words@), "name"@, 0);
        lemma_first_from(texts(words@), "value"@, 0);
    }
    match (position_of(words, "name", 0), position_of(words, "value", 0)) {
        (Some(n), Some(v)) => n < v,
        _ => true,
    }
}

} // verus!
