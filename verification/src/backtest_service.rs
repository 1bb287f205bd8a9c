//! Backtest suites: which commands may run, how they are throttled, where
//! they run, and what is reported. The caller spawns the processes.
use vstd::prelude::*;

use crate::text::{
    chars_eq_str, chars_of, contains_seq, contains_str, decimal, owned, push_decimal, push_str, starts_with_seq,
    str_starts_with, string_from_chars,
};
use crate::utf8::{byte_prefix, prefix_of_bytes, utf8_len};

verus! {

/// A request to run a backtest suite.
#[derive(Debug, Clone)]
pub struct BacktestExecutionRequest {
    pub job_id: String,
    pub node_id: String,
    pub suite_type: String,
    pub args: Vec<String>,
    pub cpu_limit_percent: Option<u8>,
    pub timeout_ms: Option<u64>,
    pub cwd: Option<String>,
}

/// The report of a backtest run.
#[derive(Debug, Clone)]
pub struct BacktestExecutionResult {
    pub job_id: String,
    pub node_id: String,
    pub suite_type: String,
    pub status: String,
    pub exit_code: Option<i32>,
    pub stdout: String,
    pub stderr: String,
    pub started_at: String,
    pub completed_at: String,
    pub duration_ms: u64,
    pub summary: String,
}

/// The SSH host of the remote compute node.
pub const GX10_HOST: &'static str = "rlab@gx10-23bd.local";

/// Time limit of a run when the request gives none (five minutes).
pub const DEFAULT_TIMEOUT_MS: u64 = 300_000;


/// The texts of a list of strings.
pub open spec fn texts(v: Seq<String>) -> Seq<Seq<char>> {
    v.map_values(|s: String| s@)
}

// ─── Allowlist ──────────────────────────────────────────────────────────────

/// The command for a vitest suite: `npx vitest run` and the arguments,
/// each either an option (`--...`) or free of `..`; else the first argument
/// that is neither.
pub open spec fn vitest_command(args: Seq<Seq<char>>) -> Result<Seq<Seq<char>>, Seq<char>>
    decreases args.len(),
{
    if args.len() == 0 {
        Ok(seq!["npx"@, "vitest"@, "run"@])
    } else {
        match vitest_command(args.drop_last()) {
            Err(e) => Err(e),
            Ok(cmd) => {
                let a = args.last();
                if starts_with_seq(a, "--"@) || !contains_seq(a, ".."@) {
                    Ok(cmd.push(a))
                } else {
                    Err("Backtest argument `"@ + a + "` is not allowed (path traversal detected)."@)
                }
            },
        }
    }
}

/// The arguments of `cargo test` read from position `i` on: `-p`/`--package`
/// with the following argument, `--` with everything after it, other
/// arguments not starting with `-`; any other option is refused.
pub open spec fn cargo_args_from(args: Seq<Seq<char>>, i: int) -> Result<Seq<Seq<char>>, Seq<char>>
    decreases args.len() - i,
{
    if i < 0 || i >= args.len() {
        Ok(Seq::empty())
    } else {
        let a = args[i];
        if a == "-p"@ || a == "--package"@ {
            if i + 1 < args.len() {
                match cargo_args_from(args, i + 2) {
                    Ok(rest) => Ok(seq![a, args[i + 1]] + rest),
                    Err(e) => Err(e),
                }
            } else {
                Ok(seq![a])
            }
        } else if a == "--"@ {
            Ok(args.skip(i))
        } else if !starts_with_seq(a, "-"@) {
            match cargo_args_from(args, i + 1) {
                Ok(rest) => Ok(seq![a] + rest),
                Err(e) => Err(e),
            }
        } else {
            Err("Backtest cargo argument `"@ + a + "` is not allowlisted."@)
        }
    }
}

/// The command a suite runs, or why it is refused.
pub open spec fn backtest_command(suite_type: Seq<char>, args: Seq<Seq<char>>) -> Result<Seq<Seq<char>>, Seq<char>> {
    if suite_type == "vitest"@ {
        vitest_command(args)
    } else if suite_type == "cargo-test"@ {
        match cargo_args_from(args, 0) {
            Ok(rest) => Ok(seq!["cargo"@, "test"@] + rest),
            Err(e) => Err(e),
        }
    } else {
        Err("Backtest suite type `"@ + suite_type + "` is not allowlisted. Allowed: vitest, cargo-test."@)
    }
}

/// `p` in front of a successful result; an error stays.
pub open spec fn prepend_ok(p: Seq<Seq<char>>, r: Result<Seq<Seq<char>>, Seq<char>>) -> Result<Seq<Seq<char>>, Seq<char>> {
    match r {
        Ok(x) => Ok(p + x),
        Err(e) => Err(e),
    }
}

proof fn lemma_prepend_assoc(p: Seq<Seq<char>>, q: Seq<Seq<char>>, r: Result<Seq<Seq<char>>, Seq<char>>)
    ensures
        prepend_ok(p, prepend_ok(q, r)) == prepend_ok(p + q, r),
{
    match r {
        Ok(x) => {
            assert(p + (q + x) =~= (p + q) + x);
        },
        Err(_) => {},
    }
}

/// A `String` copy of a string slice.
fn text(s: &str) -> (r: String)
    ensures
        r@ == s@,
{
    owned(s)
}

/// The message of a refused vitest argument.
fn traversal_error(arg: &String) -> (e: String)
    ensures
        e@ == "Backtest argument `"@ + arg@ + "` is not allowed (path traversal detected)."@,
{
    let mut out: Vec<char> = Vec::new();
    push_str(&mut out, "Backtest argument `");
    push_str(&mut out, arg.as_str());
    push_str(&mut out, "` is not allowed (path traversal detected).");
    string_from_chars(&out)
}

/// The message of a refused cargo option.
fn cargo_flag_error(arg: &String) -> (e: String)
    ensures
        e@ == "Backtest cargo argument `"@ + arg@ + "` is not allowlisted."@,
{
    let mut out: Vec<char> = Vec::new();
    push_str(&mut out, "Backtest cargo argument `");
    push_str(&mut out, arg.as_str());
    push_str(&mut out, "` is not allowlisted.");
    string_from_chars(&out)
}

/// Checks a suite against the allowlist and builds its command: `npx vitest
/// run` with safe arguments, or `cargo test` with package selection and a
/// test filter.
pub fn validate_backtest_command(suite_type: &str, args: &Vec<String>) -> (r: Result<Vec<String>, String>)
    ensures
        match backtest_command(suite_type@, texts(args@)) {
            Ok(c) => r matches Ok(v) && texts(v@) == c,
            Err(m) => r matches Err(e) && e@ == m,
        },
{
    let st = chars_of(suite_type);
    let ghost av = texts(args@);
    proof {
        reveal_strlit("vitest");
        reveal_strlit("cargo-test");
    }
    if chars_eq_str(&st, "vitest") {
        let mut cmd: Vec<String> = Vec::new();
        cmd.push(text("npx"));
        cmd.push(text("vitest"));
        cmd.push(text("run"));
        assert(texts(cmd@) =~= seq!["npx"@, "vitest"@, "run"@]);
        let mut i: usize = 0;
        while i < args.len()
            invariant
                i <= args@.len(),
                av == texts(args@),
                suite_type@ == "vitest"@,
                vitest_command(av.take(i as int)) == Ok::<Seq<Seq<char>>, Seq<char>>(texts(cmd@)),
            decreases args.len() - i,
        {
            assert(av.take(i + 1).drop_last() =~= av.take(i as int));
            assert(av.take(i + 1).last() == args@[i as int]@);
            let a = &args[i];
            let ac = chars_of(a.as_str());
            if str_starts_with(a.as_str(), "--") || !contains_str(&ac, "..") {
                let ghost before = cmd@;
                cmd.push(a.clone());
                assert(texts(cmd@) =~= texts(before).push(a@));
            } else {
                let e = traversal_error(a);
                proof {
                    assert(vitest_command(av.take(i + 1)) == Err::<Seq<Seq<char>>, Seq<char>>(e@));
                    lemma_vitest_err_stays(av, i + 1);
                }
                return Err(e);
            }
            i = i + 1;
        }
        assert(av.take(i as int) =~= av);
        Ok(cmd)
    } else if chars_eq_str(&st, "cargo-test") {
        let mut cmd: Vec<String> = Vec::new();
        cmd.push(text("cargo"));
        cmd.push(text("test"));
        let ghost head = texts(cmd@);
        assert(head =~= seq!["cargo"@, "test"@]);
        let mut i: usize = 0;
        proof {
            reveal_strlit("-p");
            reveal_strlit("--package");
            reveal_strlit("--");
            reveal_strlit("-");
            assert(texts(cmd@).skip(2) =~= Seq::<Seq<char>>::empty());
            assert(prepend_ok(Seq::empty(), cargo_args_from(av, 0)) == cargo_args_from(av, 0)) by {
                match cargo_args_from(av, 0) {
                    Ok(x) => {
                        assert(Seq::<Seq<char>>::empty() + x =~= x);
                    },
                    Err(_) => {},
                }
            }
        }
        while i < args.len()
            invariant
                i <= args@.len(),
                av == texts(args@),
                suite_type@ == "cargo-test"@,
                suite_type@ != "vitest"@,
                head == seq!["cargo"@, "test"@],
                texts(cmd@).len() >= 2,
                texts(cmd@).take(2) == head,
                cargo_args_from(av, 0) == prepend_ok(texts(cmd@).skip(2), cargo_args_from(av, i as int)),
            decreases args.len() - i,
        {
            let a = &args[i];
            assert(av[i as int] == a@);
            let ghost before = texts(cmd@);
            proof {
                reveal_strlit("vitest");
                reveal_strlit("cargo-test");
            }
            if chars_eq_str(&chars_of(a.as_str()), "-p") || chars_eq_str(&chars_of(a.as_str()), "--package") {
                cmd.push(a.clone());
                if i + 1 < args.len() {
                    cmd.push(args[i + 1].clone());
                    assert(av[i + 1] == args@[i + 1]@);
                    assert(texts(cmd@) =~= before.push(a@).push(args@[i + 1]@));
                    proof {
                        lemma_prepend_assoc(before.skip(2), seq![a@, av[i + 1]], cargo_args_from(av, i + 2));
                        assert(before.skip(2) + seq![a@, av[i + 1]] =~= texts(cmd@).skip(2));
                        assert(texts(cmd@).take(2) =~= head);
                    }
                    i = i + 2;
                } else {
                    assert(texts(cmd@) =~= before.push(a@));
                    proof {
                        assert(cargo_args_from(av, i + 1) == Ok::<Seq<Seq<char>>, Seq<char>>(Seq::empty()));
                        lemma_prepend_assoc(before.skip(2), seq![a@], cargo_args_from(av, i + 1));
                        assert(seq![a@] + Seq::<Seq<char>>::empty() =~= seq![a@]);
                        assert(before.skip(2) + seq![a@] =~= texts(cmd@).skip(2));
                        assert(texts(cmd@).take(2) =~= head);
                    }
                    i = i + 1;
                }
            } else if chars_eq_str(&chars_of(a.as_str()), "--") {
                let mut k: usize = i;
                while k < args.len()
                    invariant
                        i <= k <= args@.len(),
                        av == texts(args@),
                        texts(cmd@) == before + av.subrange(i as int, k as int),
                    decreases args.len() - k,
                {
                    let ghost b2 = texts(cmd@);
                    cmd.push(args[k].clone());
                    assert(texts(cmd@) =~= b2.push(args@[k as int]@));
                    k = k + 1;
                    assert(av.subrange(i as int, k as int) =~= av.subrange(i as int, k - 1).push(av[k - 1]));
                }
                proof {
                    assert(cargo_args_from(av, i as int) == Ok::<Seq<Seq<char>>, Seq<char>>(av.skip(i as int)));
                    assert(av.subrange(i as int, k as int) =~= av.skip(i as int));
                    assert(texts(cmd@) =~= head + (before.skip(2) + av.skip(i as int))) by {
                        assert(before =~= before.take(2) + before.skip(2));
                    }
                }
                return Ok(cmd);
            } else if !str_starts_with(a.as_str(), "-") {
                cmd.push(a.clone());
                assert(texts(cmd@) =~= before.push(a@));
                proof {
                    lemma_prepend_assoc(before.skip(2), seq![a@], cargo_args_from(av, i + 1));
                    assert(before.skip(2) + seq![a@] =~= texts(cmd@).skip(2));
                    assert(texts(cmd@).take(2) =~= head);
                }
                i = i + 1;
            } else {
                let e = cargo_flag_error(a);
                proof {
                    assert(cargo_args_from(av, i as int) == Err::<Seq<Seq<char>>, Seq<char>>(e@));
                    assert(cargo_args_from(av, 0) == Err::<Seq<Seq<char>>, Seq<char>>(e@));
                    assert(suite_type@ != "vitest"@);
                    assert(backtest_command(suite_type@, av) == Err::<Seq<Seq<char>>, Seq<char>>(e@));
                }
                return Err(e);
            }
        }
        proof {
            assert(cargo_args_from(av, i as int) == Ok::<Seq<Seq<char>>, Seq<char>>(Seq::empty()));
            assert(texts(cmd@).skip(2) + Seq::<Seq<char>>::empty() =~= texts(cmd@).skip(2));
            assert(texts(cmd@) =~= texts(cmd@).take(2) + texts(cmd@).skip(2));
        }
        Ok(cmd)
    } else {
        let mut out: Vec<char> = Vec::new();
        push_str(&mut out, "Backtest suite type `");
        push_str(&mut out, suite_type);
        push_str(&mut out, "` is not allowlisted. Allowed: vitest, cargo-test.");
        Err(string_from_chars(&out))
    }
}

/// Once the vitest arguments are refused, longer prefixes are refused with
/// the same message.
proof fn lemma_vitest_err_stays(args: Seq<Seq<char>>, k: int)
    requires
        0 <= k <= args.len(),
        vitest_command(args.take(k)) is Err,
    ensures
        vitest_command(args) == vitest_command(args.take(k)),
    decreases args.len() - k,
{
    if k < args.len() {
        assert(args.take(k + 1).drop_last() =~= args.take(k));
        lemma_vitest_err_stays(args, k + 1);
    } else {
        assert(args.take(k) =~= args);
    }
}

/// A vitest argument is allowed: an option (`--...`) or free of `..`.
pub open spec fn vitest_arg_ok(a: Seq<char>) -> bool {
    starts_with_seq(a, "--"@) || !contains_seq(a, ".."@)
}

/// A `cargo test` option the allowlist accepts: `-p`, `--package` or `--`.
pub open spec fn cargo_option_ok(a: Seq<char>) -> bool {
    a == "-p"@ || a == "--package"@ || a == "--"@
}

/// Law: a vitest suite is accepted exactly when every argument is an
/// option or free of `..`, and then runs `npx vitest run` with the
/// arguments unchanged.
pub proof fn law_vitest_allowlist(args: Seq<Seq<char>>)
    ensures
        vitest_command(args) is Ok <==> forall|i: int| 0 <= i < args.len() ==> vitest_arg_ok(#[trigger] args[i]),
        vitest_command(args) is Ok ==> vitest_command(args) == Ok::<Seq<Seq<char>>, Seq<char>>(
            seq!["npx"@, "vitest"@, "run"@] + args,
        ),
    decreases args.len(),
{
    if args.len() > 0 {
        let front = args.drop_last();
        law_vitest_allowlist(front);
        assert forall|i: int| 0 <= i < front.len() implies front[i] == args[i] by {}
        if vitest_command(args) is Ok {
            assert(seq!["npx"@, "vitest"@, "run"@] + args =~= (seq!["npx"@, "vitest"@, "run"@] + front).push(args.last()));
        }
        if forall|i: int| 0 <= i < args.len() ==> vitest_arg_ok(#[trigger] args[i]) {
            assert(vitest_arg_ok(args[args.len() - 1]));
            assert forall|i: int| 0 <= i < front.len() implies vitest_arg_ok(#[trigger] front[i]) by {
                assert(vitest_arg_ok(args[i]));
            }
        }
        if vitest_command(args) is Ok {
            assert forall|i: int| 0 <= i < args.len() implies vitest_arg_ok(#[trigger] args[i]) by {
                if i < front.len() {
                    assert(vitest_arg_ok(front[i]));
                }
            }
        }
    } else {
        assert(seq!["npx"@, "vitest"@, "run"@] + args =~= seq!["npx"@, "vitest"@, "run"@]);
    }
}

/// The `cargo test` arguments from position `i`, when accepted, are the
/// arguments themselves; when refused, the message names an option other
/// than `-p`, `--package` and `--`.
proof fn lemma_cargo_args_from(args: Seq<Seq<char>>, i: int)
    requires
        0 <= i <= args.len(),
    ensures
        match cargo_args_from(args, i) {
            Ok(r) => r == args.skip(i),
            Err(e) => exists|j: int|
                i <= j < args.len() && starts_with_seq(#[trigger] args[j], "-"@) && !cargo_option_ok(args[j]) && e
                    == "Backtest cargo argument `"@ + args[j] + "` is not allowlisted."@,
        },
    decreases args.len() - i,
{
    reveal_strlit("-p");
    reveal_strlit("--package");
    reveal_strlit("--");
    reveal_strlit("-");
    if i < args.len() {
        let a = args[i];
        if a == "-p"@ || a == "--package"@ {
            if i + 1 < args.len() {
                lemma_cargo_args_from(args, i + 2);
                if let Ok(rest) = cargo_args_from(args, i + 2) {
                    assert(seq![a, args[i + 1]] + rest =~= args.skip(i));
                }
            } else {
                assert(seq![a] =~= args.skip(i));
            }
        } else if a == "--"@ {
        } else if !starts_with_seq(a, "-"@) {
            lemma_cargo_args_from(args, i + 1);
            if let Ok(rest) = cargo_args_from(args, i + 1) {
                assert(seq![a] + rest =~= args.skip(i));
            }
        } else {
            assert(starts_with_seq(args[i], "-"@));
        }
    } else {
        assert(args.skip(i) =~= Seq::<Seq<char>>::empty());
    }
}

/// Without any option other than `-p`, `--package` and `--`, the `cargo
/// test` arguments from position `i` are accepted.
proof fn lemma_cargo_args_accepted(args: Seq<Seq<char>>, i: int)
    requires
        0 <= i <= args.len(),
        forall|j: int| 0 <= j < args.len() && starts_with_seq(#[trigger] args[j], "-"@) ==> cargo_option_ok(args[j]),
    ensures
        cargo_args_from(args, i) is Ok,
    decreases args.len() - i,
{
    if i < args.len() {
        let a = args[i];
        if a == "-p"@ || a == "--package"@ {
            if i + 1 < args.len() {
                lemma_cargo_args_accepted(args, i + 2);
            }
        } else if a == "--"@ {
        } else if !starts_with_seq(a, "-"@) {
            lemma_cargo_args_accepted(args, i + 1);
        } else {
            assert(starts_with_seq(args[i], "-"@));
        }
    }
}

/// Law: a `cargo-test` suite runs `cargo test` with its arguments
/// unchanged when it is accepted; it is accepted whenever every argument
/// starting with `-` is `-p`, `--package` or `--`; and a refusal names an
/// argument that starts with `-` and is none of these. (The value after
/// `-p`/`--package` is taken as it is, so `-p -- -x` is refused: `--` is
/// the package there.)
pub proof fn law_cargo_allowlist(args: Seq<Seq<char>>)
    ensures
        backtest_command("cargo-test"@, args) is Ok ==> backtest_command("cargo-test"@, args) == Ok::<
            Seq<Seq<char>>,
            Seq<char>,
        >(seq!["cargo"@, "test"@] + args),
        (forall|j: int| 0 <= j < args.len() && starts_with_seq(#[trigger] args[j], "-"@) ==> cargo_option_ok(args[j]))
            ==> backtest_command("cargo-test"@, args) is Ok,
        backtest_command("cargo-test"@, args) matches Err(e) ==> exists|j: int|
            0 <= j < args.len() && starts_with_seq(#[trigger] args[j], "-"@) && !cargo_option_ok(args[j]) && e
                == "Backtest cargo argument `"@ + args[j] + "` is not allowlisted."@,
{
    reveal_strlit("vitest");
    reveal_strlit("cargo-test");
    assert("cargo-test"@.len() != "vitest"@.len());
    lemma_cargo_args_from(args, 0);
    assert(args.skip(0) =~= args);
    if forall|j: int| 0 <= j < args.len() && starts_with_seq(#[trigger] args[j], "-"@) ==> cargo_option_ok(args[j]) {
        lemma_cargo_args_accepted(args, 0);
    }
}

// ─── Throttling ─────────────────────────────────────────────────────────────

/// The nice level for a CPU limit below 100%: 19 at 0%, 15 up to 25%, 10
/// up to 50%, 5 up to 75%, 0 above.
pub open spec fn nice_level(limit: u8) -> nat {
    if limit == 0 {
        19
    } else if limit <= 25 {
        15
    } else if limit <= 50 {
        10
    } else if limit <= 75 {
        5
    } else {
        0
    }
}

/// The throttling prefix: on Unix, `nice -n<level> ionice -c3` for a limit
/// below 100%; nothing without a limit, at 100% or more, or elsewhere.
pub open spec fn throttle_prefix(cpu_limit_percent: Option<u8>, unix: bool) -> Seq<Seq<char>> {
    match cpu_limit_percent {
        Some(p) if p < 100 && unix => seq!["nice"@, "-n"@ + decimal(nice_level(p)), "ionice"@, "-c3"@],
        _ => Seq::empty(),
    }
}

/// The platform's main path separator (`std::path::MAIN_SEPARATOR`): `/` on
/// Unix, `\` on Windows.
#[verifier::external_body]
fn main_separator() -> (c: char) {
    std::path::MAIN_SEPARATOR
}

/// Whether the program runs on a Unix-like platform, judged by the path
/// separator (a build-time platform test cannot stand in the library; the
/// program passes its own to `throttle_prefix_for` and `plan_backtest`).
pub fn is_unix() -> (b: bool) {
    main_separator() == '/'
}

/// The throttling prefix on the given kind of platform.
pub fn throttle_prefix_for(cpu_limit_percent: Option<u8>, unix: bool) -> (v: Vec<String>)
    ensures
        texts(v@) == throttle_prefix(cpu_limit_percent, unix),
{
    let limit = match cpu_limit_percent {
        Some(p) => {
            if p < 100 {
                p
            } else {
                let v: Vec<String> = Vec::new();
                assert(texts(v@) =~= Seq::<Seq<char>>::empty());
                return v;
            }
        },
        None => {
            let v: Vec<String> = Vec::new();
            assert(texts(v@) =~= Seq::<Seq<char>>::empty());
            return v;
        },
    };
    let level: u64 = if limit == 0 {
        19
    } else if limit <= 25 {
        15
    } else if limit <= 50 {
        10
    } else if limit <= 75 {
        5
    } else {
        0
    };
    let mut v: Vec<String> = Vec::new();
    if unix {
        let mut n: Vec<char> = Vec::new();
        push_str(&mut n, "-n");
        push_decimal(&mut n, level);
        v.push(text("nice"));
        v.push(string_from_chars(&n));
        v.push(text("ionice"));
        v.push(text("-c3"));
        assert(texts(v@) =~= throttle_prefix(cpu_limit_percent, unix));
    } else {
        assert(texts(v@) =~= Seq::<Seq<char>>::empty());
    }
    v
}

/// The throttling prefix on this platform.
pub fn build_throttle_prefix(cpu_limit_percent: Option<u8>) -> (v: Vec<String>)
    ensures
        exists|unix: bool| texts(v@) == #[trigger] throttle_prefix(cpu_limit_percent, unix),
{
    let unix = is_unix();
    let v = throttle_prefix_for(cpu_limit_percent, unix);
    assert(texts(v@) == throttle_prefix(cpu_limit_percent, unix));
    v
}

/// The Windows priority class for a CPU limit: idle up to 25%, below normal
/// up to 75%, normal otherwise.
pub fn windows_priority_class(cpu_limit_percent: Option<u8>) -> (c: u32)
    ensures
        c == match cpu_limit_percent {
            Some(p) => if p <= 25 {
                0x40u32
            } else if p <= 75 {
                0x4000u32
            } else {
                0x20u32
            },
            None => 0x20u32,
        },
{
    match cpu_limit_percent {
        Some(p) => {
            if p <= 25 {
                0x00000040
            } else if p <= 75 {
                0x00004000
            } else {
                0x00000020
            }
        },
        None => 0x00000020,
    }
}

// ─── Running ────────────────────────────────────────────────────────────────

/// Whether a program may be spawned: `npx`, `cargo`, `vitest`, or the
/// throttling tools `nice` and `ionice`.
pub open spec fn program_allowed(p: Seq<char>) -> bool {
    p == "npx"@ || p == "cargo"@ || p == "vitest"@ || p == "nice"@ || p == "ionice"@
}

/// Checks a command line before it is spawned: it must name a program, and
/// an allowed one.
pub fn check_command(command: &Vec<String>) -> (r: Result<(), String>)
    ensures
        command@.len() == 0 ==> (r matches Err(e) && e@ == "Command cannot be empty."@),
        command@.len() > 0 && program_allowed(command@[0]@) ==> r is Ok,
        command@.len() > 0 && !program_allowed(command@[0]@) ==> (r matches Err(e) && e@ == "Program `"@
            + command@[0]@ + "` is not in the backtest allowlist."@),
{
    if command.len() == 0 {
        return Err(text("Command cannot be empty."));
    }
    let p = chars_of(command[0].as_str());
    if chars_eq_str(&p, "npx") || chars_eq_str(&p, "cargo") || chars_eq_str(&p, "vitest") || chars_eq_str(&p, "nice")
        || chars_eq_str(&p, "ionice") {
        Ok(())
    } else {
        let mut out: Vec<char> = Vec::new();
        push_str(&mut out, "Program `");
        push_str(&mut out, command[0].as_str());
        push_str(&mut out, "` is not in the backtest allowlist.");
        Err(string_from_chars(&out))
    }
}

/// The SSH host of a remote node.
pub fn resolve_remote_host(node_id: &str) -> (r: Result<&'static str, String>)
    ensures
        node_id@ == "compute-gx10"@ ==> r == Ok::<&'static str, String>(GX10_HOST),
        node_id@ != "compute-gx10"@ ==> (r matches Err(e) && e@ == "Remote backtest node `"@ + node_id@
            + "` is not configured for SSH execution."@),
{
    if chars_eq_str(&chars_of(node_id), "compute-gx10") {
        Ok(GX10_HOST)
    } else {
        let mut out: Vec<char> = Vec::new();
        push_str(&mut out, "Remote backtest node `");
        push_str(&mut out, node_id);
        push_str(&mut out, "` is not configured for SSH execution.");
        Err(string_from_chars(&out))
    }
}

/// The SSH connection timeout in seconds: the run's limit in whole seconds,
/// at most 30.
pub fn ssh_connect_timeout_secs(timeout_ms: u64) -> (s: u64)
    ensures
        s == if timeout_ms / 1000 < 30 {
            timeout_ms / 1000
        } else {
            30
        },
{
    let secs = timeout_ms / 1000;
    if secs < 30 {
        secs
    } else {
        30
    }
}

/// Where and how a suite runs: locally with its full command line, or over
/// SSH with the command joined by spaces.
#[derive(Debug, Clone)]
pub enum BacktestPlan {
    Local { command: Vec<String>, timeout_ms: u64, cwd: Option<String> },
    Remote { host: String, remote_command: String, timeout_ms: u64 },
}

/// The strings joined by single spaces.
pub open spec fn join_spaces(v: Seq<Seq<char>>) -> Seq<char>
    decreases v.len(),
{
    if v.len() == 0 {
        Seq::empty()
    } else if v.len() == 1 {
        v[0]
    } else {
        join_spaces(v.drop_last()) + " "@ + v.last()
    }
}

/// The node that runs suites on this machine.
pub open spec fn is_local_node(node_id: Seq<char>) -> bool {
    node_id == "compute-desktop-local"@
}

/// Plans a run: the request's time limit (five minutes by default), the
/// allowlisted command, then for the local node the command behind the
/// throttling prefix, for the remote node its SSH host and the joined
/// command; an unknown node is refused.
pub fn plan_backtest(request: &BacktestExecutionRequest, unix: bool) -> (r: Result<BacktestPlan, String>)
    ensures
        match backtest_command(request.suite_type@, texts(request.args@)) {
            Err(m) => r matches Err(e) && e@ == m,
            Ok(c) => {
                let t = match request.timeout_ms {
                    Some(t) => t,
                    None => DEFAULT_TIMEOUT_MS,
                };
                if is_local_node(request.node_id@) {
                    r matches Ok(BacktestPlan::Local { command, timeout_ms, cwd }) && texts(command@) == throttle_prefix(
                        request.cpu_limit_percent,
                        unix,
                    ) + c && timeout_ms == t && cwd == request.cwd
                } else if request.node_id@ == "compute-gx10"@ {
                    r matches Ok(BacktestPlan::Remote { host, remote_command, timeout_ms }) && host@ == GX10_HOST@
                        && remote_command@ == join_spaces(c) && timeout_ms == t
                } else {
                    r matches Err(e) && e@ == "Remote backtest node `"@ + request.node_id@
                        + "` is not configured for SSH execution."@
                }
            },
        },
{
    let timeout_ms = match request.timeout_ms {
        Some(t) => t,
        None => DEFAULT_TIMEOUT_MS,
    };
    let command = match validate_backtest_command(request.suite_type.as_str(), &request.args) {
        Ok(c) => c,
        Err(e) => {
            return Err(e);
        },
    };
    proof {
        reveal_strlit("compute-desktop-local");
    }
    if chars_eq_str(&chars_of(request.node_id.as_str()), "compute-desktop-local") {
        let mut full = throttle_prefix_for(request.cpu_limit_percent, unix);
        let ghost pre = texts(full@);
        let mut i: usize = 0;
        while i < command.len()
            invariant
                i <= command@.len(),
                texts(full@) == pre + texts(command@).take(i as int),
            decreases command.len() - i,
        {
            let ghost b2 = texts(full@);
            full.push(command[i].clone());
            assert(texts(full@) =~= b2.push(command@[i as int]@));
            i = i + 1;
            assert(texts(command@).take(i as int) =~= texts(command@).take(i - 1).push(command@[i - 1]@));
            assert(texts(full@) =~= pre + texts(command@).take(i as int));
        }
        assert(texts(command@).take(i as int) =~= texts(command@));
        let cwd = match &request.cwd {
            Some(c) => Some(c.clone()),
            None => None,
        };
        Ok(BacktestPlan::Local { command: full, timeout_ms, cwd })
    } else {
        let host = match resolve_remote_host(request.node_id.as_str()) {
            Ok(h) => h,
            Err(e) => {
                return Err(e);
            },
        };
        let mut out: Vec<char> = Vec::new();
        let mut i: usize = 0;
        while i < command.len()
            invariant
                i <= command@.len(),
                out@ == join_spaces(texts(command@).take(i as int)),
            decreases command.len() - i,
        {
            assert(texts(command@).take(i + 1).drop_last() =~= texts(command@).take(i as int));
            assert(texts(command@).take(i + 1).last() == command@[i as int]@);
            if i > 0 {
                push_str(&mut out, " ");
            }
            push_str(&mut out, command[i].as_str());
            proof {
                if i == 0 {
                    assert(texts(command@).take(1)[0] == command@[0]@);
                }
            }
            i = i + 1;
        }
        assert(texts(command@).take(i as int) =~= texts(command@));
        Ok(BacktestPlan::Remote { host: text(host), remote_command: string_from_chars(&out), timeout_ms })
    }
}

/// The error of a run that took longer than its limit.
pub fn timeout_error(program: &str, timeout_ms: u64, duration_ms: u64) -> (e: String)
    ensures
        e@ == "Backtest command `"@ + program@ + "` exceeded timeout of "@ + decimal(timeout_ms as nat) + "ms (took "@
            + decimal(duration_ms as nat) + "ms)."@,
{
    let mut out: Vec<char> = Vec::new();
    push_str(&mut out, "Backtest command `");
    push_str(&mut out, program);
    push_str(&mut out, "` exceeded timeout of ");
    push_decimal(&mut out, timeout_ms);
    push_str(&mut out, "ms (took ");
    push_decimal(&mut out, duration_ms);
    push_str(&mut out, "ms).");
    string_from_chars(&out)
}

/// A time as `unix:<seconds>`.
pub fn unix_timestamp_text(secs: u64) -> (s: String)
    ensures
        s@ == "unix:"@ + decimal(secs as nat),
{
    let mut out: Vec<char> = Vec::new();
    push_str(&mut out, "unix:");
    push_decimal(&mut out, secs);
    string_from_chars(&out)
}

/// The report of a finished run: `succeeded` or `failed`, and a summary
/// sentence.
pub fn backtest_result(
    request: &BacktestExecutionRequest,
    started_at: String,
    completed_at: String,
    success: bool,
    exit_code: Option<i32>,
    stdout: String,
    stderr: String,
    duration_ms: u64,
) -> (r: BacktestExecutionResult)
    ensures
        r.job_id@ == request.job_id@,
        r.node_id@ == request.node_id@,
        r.suite_type@ == request.suite_type@,
        r.status@ == (if success { "succeeded"@ } else { "failed"@ }),
        r.exit_code == exit_code,
        r.stdout == stdout,
        r.stderr == stderr,
        r.started_at == started_at,
        r.completed_at == completed_at,
        r.duration_ms == duration_ms,
        r.summary@ == "Backtest suite `"@ + request.suite_type@ + "` "@ + (if success { "succeeded"@ } else { "failed"@ })
            + " in "@ + decimal(duration_ms as nat) + "ms."@,
{
    let status = if success {
        text("succeeded")
    } else {
        text("failed")
    };
    let mut out: Vec<char> = Vec::new();
    push_str(&mut out, "Backtest suite `");
    push_str(&mut out, request.suite_type.as_str());
    push_str(&mut out, "` ");
    push_str(&mut out, status.as_str());
    push_str(&mut out, " in ");
    push_decimal(&mut out, duration_ms);
    push_str(&mut out, "ms.");
    BacktestExecutionResult {
        job_id: request.job_id.clone(),
        node_id: request.node_id.clone(),
        suite_type: request.suite_type.clone(),
        status,
        exit_code,
        stdout,
        stderr,
        started_at,
        completed_at,
        duration_ms,
        summary: string_from_chars(&out),
    }
}

// ─── Process output ─────────────────────────────────────────────────────────

/// Bytes of a command's output kept in a report.
pub const MAX_OUTPUT_BYTES: u64 = 16384;

/// The text that `String::from_utf8_lossy` decodes from bytes: the UTF-8
/// decoding, with U+FFFD in place of each invalid sequence.
pub uninterp spec fn utf8_lossy(bytes: Seq<u8>) -> Seq<char>;

/// Decodes bytes as UTF-8, replacing invalid sequences
/// (`String::from_utf8_lossy`). The decoding is std's: its result is named,
/// not stated.
#[verifier::external_body]
fn decode_lossy(bytes: &Vec<u8>) -> (s: String)
    ensures
        s@ == utf8_lossy(bytes@),
{
    String::from_utf8_lossy(bytes.as_slice()).into_owned()
}

/// Output can be cut to the report's size: it is short enough, or a
/// character ends exactly at the limit.
pub open spec fn output_cuttable(text: Seq<char>) -> bool {
    utf8_len(text) > MAX_OUTPUT_BYTES ==> byte_prefix(text, MAX_OUTPUT_BYTES as nat) is Some
}

/// Output as reported: longer than the limit, it is cut there and marked
/// `[truncated]` on a line of its own.
pub open spec fn trimmed_output(text: Seq<char>) -> Seq<char> {
    if utf8_len(text) > MAX_OUTPUT_BYTES {
        byte_prefix(text, MAX_OUTPUT_BYTES as nat).unwrap() + "\n[truncated]"@
    } else {
        text
    }
}

/// A command's output as reported: decoded, and cut to 16 KiB.
pub fn trim_output(value: &Vec<u8>) -> (s: String)
    requires
        output_cuttable(utf8_lossy(value@)),
    ensures
        s@ == trimmed_output(utf8_lossy(value@)),
{
    let decoded = decode_lossy(value);
    let v = chars_of(decoded.as_str());
    let (prefix, long) = prefix_of_bytes(&v, MAX_OUTPUT_BYTES + 1);
    if long {
        let (cut, _) = prefix_of_bytes(&v, MAX_OUTPUT_BYTES);
        match cut {
            Some(c) => {
                let mut out = c;
                push_str(&mut out, "\n[truncated]");
                string_from_chars(&out)
            },
            None => decoded,
        }
    } else {
        decoded
    }
}

/// A command's output as reported, or `None` when the limit falls inside a
/// character (where cutting the text is impossible).
pub fn try_trim_output(value: &Vec<u8>) -> (r: Option<String>)
    ensures
        output_cuttable(utf8_lossy(value@)) ==> (r matches Some(s) && s@ == trimmed_output(utf8_lossy(value@))),
        !output_cuttable(utf8_lossy(value@)) ==> r is None,
{
    let decoded = decode_lossy(value);
    let v = chars_of(decoded.as_str());
    let (_, long) = prefix_of_bytes(&v, MAX_OUTPUT_BYTES + 1);
    let (cut, _) = prefix_of_bytes(&v, MAX_OUTPUT_BYTES);
    if long && cut.is_none() {
        return None;
    }
    Some(trim_output(value))
}

} // verus!
