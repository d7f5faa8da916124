//! The command line of network training: the counts the data must match,
//! the training length, where checkpoints go, the loader's memory and
//! threads, and the data given.
//!
//! A data path may name a directory, whose files the caller lists: the
//! options keep the paths as given.
use vstd::prelude::*;

use crate::text::{lemma_unsigned_nonneg, parse_unsigned, same_text, unsigned_value};

verus! {

/// The training options.
pub struct TrainOptions {
    /// The games and positions the data must hold, if given.
    pub expected: Option<(u64, u64)>,
    /// Superbatches to train for.
    pub superbatches: usize,
    /// The directory of the checkpoints.
    pub output: String,
    /// The loader's buffer, in mebibytes.
    pub buffer_mb: usize,
    /// The loader's threads.
    pub threads: usize,
    /// The data paths, files or directories, in the order given.
    pub inputs: Vec<String>,
}

/// The options as plain values: expected counts, superbatches, output,
/// buffer, threads, inputs.
pub type TrainSettings = (Option<(u64, u64)>, int, Seq<char>, int, int, Seq<Seq<char>>);

/// The options by default: no expected counts, forty superbatches into
/// `checkpoints`, a gibibyte of buffer, four threads, no data.
pub open spec fn default_train_settings() -> TrainSettings {
    (None, 40, "checkpoints"@, 1024, 4, Seq::empty())
}

/// Whether an argument is an option that takes a value.
pub open spec fn train_flag(a: Seq<char>) -> bool {
    ||| a == "--attendu"@
    ||| a == "--superlots"@
    ||| a == "--sortie"@
    ||| a == "--memoire"@
    ||| a == "--fils"@
}

/// The first position of `c` in `s`, at or after `k`.
pub open spec fn index_from(s: Seq<char>, c: char, k: int) -> Option<int>
    decreases s.len() - k,
{
    if k < 0 || k >= s.len() {
        None
    } else if s[k] == c {
        Some(k)
    } else {
        index_from(s, c, k + 1)
    }
}

proof fn lemma_index_within(s: Seq<char>, c: char, k: int)
    ensures
        index_from(s, c, k) matches Some(i) ==> 0 <= k <= i < s.len() && s[i] == c,
    decreases s.len() - k,
{
    if 0 <= k < s.len() && s[k] != c {
        lemma_index_within(s, c, k + 1);
    }
}

/// The expected counts an `--attendu` value writes: games, a colon — the
/// first one — and positions, each an unsigned 64-bit integer.
pub open spec fn expected_counts(value: Seq<char>) -> Result<(u64, u64), Seq<char>> {
    match index_from(value, ':', 0) {
        None => Err("--attendu s'écrit PARTIES:POSITIONS"@),
        Some(k) => {
            let games = unsigned_value(value.subrange(0, k));
            let positions = unsigned_value(value.subrange(k + 1, value.len() as int));
            if !(games matches Some(g) && g <= u64::MAX) {
                Err("--attendu : parties illisibles"@)
            } else if !(positions matches Some(p) && p <= u64::MAX) {
                Err("--attendu : positions illisibles"@)
            } else {
                Ok((games.unwrap() as u64, positions.unwrap() as u64))
            }
        },
    }
}

/// A count written as an unsigned `usize`.
pub open spec fn size_value(value: Seq<char>) -> Option<int> {
    match unsigned_value(value) {
        Some(n) => if n <= usize::MAX {
            Some(n)
        } else {
            None
        },
        None => None,
    }
}

/// Reads the arguments from `args[i]` on: an option takes the next argument
/// as its value, anything else is a data path.
pub open spec fn read_train(args: Seq<Seq<char>>, i: int, c: TrainSettings) -> Result<
    TrainSettings,
    Seq<char>,
>
    decreases args.len() - i,
{
    if i < 0 || i >= args.len() {
        Ok(c)
    } else if !train_flag(args[i]) {
        read_train(args, i + 1, (c.0, c.1, c.2, c.3, c.4, c.5.push(args[i])))
    } else if i + 1 >= args.len() {
        Err(args[i] + " attend une valeur"@)
    } else {
        let flag = args[i];
        let value = args[i + 1];
        if flag == "--attendu"@ {
            match expected_counts(value) {
                Ok(e) => read_train(args, i + 2, (Some(e), c.1, c.2, c.3, c.4, c.5)),
                Err(m) => Err(m),
            }
        } else if flag == "--sortie"@ {
            read_train(args, i + 2, (c.0, c.1, value, c.3, c.4, c.5))
        } else {
            match size_value(value) {
                None => Err(
                    if flag == "--superlots"@ {
                        "--superlots attend un entier"@
                    } else if flag == "--memoire"@ {
                        "--memoire attend un entier (Mio)"@
                    } else {
                        "--fils attend un entier"@
                    },
                ),
                Some(n) => if flag == "--superlots"@ {
                    read_train(args, i + 2, (c.0, n, c.2, c.3, c.4, c.5))
                } else if flag == "--memoire"@ {
                    read_train(args, i + 2, (c.0, c.1, c.2, n, c.4, c.5))
                } else {
                    read_train(args, i + 2, (c.0, c.1, c.2, c.3, n, c.5))
                },
            }
        }
    }
}

/// The options the arguments ask for; some data is required.
pub open spec fn train_spec(args: Seq<Seq<char>>) -> Result<TrainSettings, Seq<char>> {
    match read_train(args, 0, default_train_settings()) {
        Err(e) => Err(e),
        Ok(c) => if c.5.len() == 0 {
            Err("aucun fichier de données"@)
        } else {
            Ok(c)
        },
    }
}

/// The options as plain values.
pub open spec fn train_view(o: TrainOptions) -> TrainSettings {
    (
        o.expected,
        o.superbatches as int,
        o.output@,
        o.buffer_mb as int,
        o.threads as int,
        o.inputs@.map_values(|p: String| p@),
    )
}

/// The first colon of a text at or after `k`.
fn colon_from(s: &str, k: usize) -> (r: Option<usize>)
    requires
        k <= s@.len(),
    ensures
        r == (match index_from(s@, ':', k as int) {
            Some(i) => Some(i as usize),
            None => None::<usize>,
        }),
    decreases s@.len() - k,
{
    let n = s.unicode_len();
    if k >= n {
        None
    } else if s.get_char(k) == ':' {
        Some(k)
    } else {
        colon_from(s, k + 1)
    }
}

/// Reads the command line of a training.
pub fn parse_options(args: &[String]) -> (r: Result<TrainOptions, String>)
    ensures
        match train_spec(args@.map_values(|a: String| a@)) {
            Ok(c) => r matches Ok(o) && train_view(o) == c,
            Err(m) => r matches Err(e) && e@ == m,
        },
{
    let ghost all = args@.map_values(|a: String| a@);
    let mut options = TrainOptions {
        expected: None,
        superbatches: 40,
        output: String::from_str("checkpoints"),
        buffer_mb: 1024,
        threads: 4,
        inputs: Vec::new(),
    };
    proof {
        reveal_strlit("checkpoints");
        assert(options.inputs@.map_values(|p: String| p@) =~= Seq::<Seq<char>>::empty());
    }
    let mut i: usize = 0;
    while i < args.len()
        invariant
            all == args@.map_values(|a: String| a@),
            i <= args@.len(),
            read_train(all, 0, default_train_settings()) == read_train(
                all,
                i as int,
                train_view(options),
            ),
        decreases args@.len() - i,
    {
        let arg = args[i].as_str();
        proof {
            assert(all[i as int] == arg@);
            reveal_strlit("--attendu");
            reveal_strlit("--superlots");
            reveal_strlit("--sortie");
            reveal_strlit("--memoire");
            reveal_strlit("--fils");
        }
        let flag = same_text(arg, "--attendu") || same_text(arg, "--superlots") || same_text(
            arg,
            "--sortie",
        ) || same_text(arg, "--memoire") || same_text(arg, "--fils");
        if !flag {
            let ghost before = options.inputs@;
            options.inputs.push(String::from_str(arg));
            proof {
                assert(options.inputs@.map_values(|p: String| p@) =~= before.map_values(
                    |p: String| p@,
                ).push(arg@));
            }
            i = i + 1;
        } else {
            if args.len() - i < 2 {
                let mut message = String::from_str(arg);
                message.append(" attend une valeur");
                return Err(message);
            }
            let value = args[i + 1].as_str();
            proof {
                assert(all[i + 1] == value@);
                lemma_unsigned_nonneg(value@);
            }
            if same_text(arg, "--attendu") {
                let colon = match colon_from(value, 0) {
                    Some(k) => k,
                    None => {
                        return Err(String::from_str("--attendu s'écrit PARTIES:POSITIONS"));
                    },
                };
                proof {
                    lemma_index_within(value@, ':', 0);
                }
                let n = value.unicode_len();
                let games_text = value.substring_char(0, colon);
                let positions_text = value.substring_char(colon + 1, n);
                proof {
                    lemma_unsigned_nonneg(games_text@);
                    lemma_unsigned_nonneg(positions_text@);
                }
                let games = match parse_unsigned(games_text, u64::MAX) {
                    Some(g) => g,
                    None => {
                        return Err(String::from_str("--attendu : parties illisibles"));
                    },
                };
                let positions = match parse_unsigned(positions_text, u64::MAX) {
                    Some(p) => p,
                    None => {
                        return Err(String::from_str("--attendu : positions illisibles"));
                    },
                };
                options.expected = Some((games, positions));
            } else if same_text(arg, "--sortie") {
                options.output = String::from_str(value);
            } else {
                let number = parse_unsigned(value, usize::MAX as u64);
                if same_text(arg, "--superlots") {
                    match number {
                        Some(n) => {
                            options.superbatches = n as usize;
                        },
                        None => {
                            return Err(String::from_str("--superlots attend un entier"));
                        },
                    }
                } else if same_text(arg, "--memoire") {
                    match number {
                        Some(n) => {
                            options.buffer_mb = n as usize;
                        },
                        None => {
                            return Err(String::from_str("--memoire attend un entier (Mio)"));
                        },
                    }
                } else {
                    match number {
                        Some(n) => {
                            options.threads = n as usize;
                        },
                        None => {
                            return Err(String::from_str("--fils attend un entier"));
                        },
                    }
                }
            }
            i = i + 2;
        }
    }
    if options.inputs.len() == 0 {
        return Err(String::from_str("aucun fichier de données"));
    }
    Ok(options)
}

} // verus!
