//! The logic of the `podium` command line: `--env` variables, the
//! instrumentation command, the progress lines the runner prints, and the
//! cache key of bundled APKs.

use vstd::prelude::*;
use vstd::string::StringExecFns;
use crate::text::{
    append_chars, append_vec, chars_of, find_chars, find_from, has_prefix, lower_hex, occurs_at,
    lower_hex_chars, slice_chars, starts_with, string_from, string_of,
};
use crate::text_map::{lemma_insert_then_lookup, key_position, text_lookup, EnvVars};

verus! {

// ----------------------------------------------------------------------------
// Splitting
/// The position of the first `c` in `s`.
pub open spec fn char_position(s: Seq<char>, c: char) -> Option<int> {
    find_from(s, seq![c], 0)
}

/// `str::splitn(n, sep)`: at most `n` pieces; the last piece holds the rest
/// of the text.
pub open spec fn split_n(s: Seq<char>, sep: char, n: nat) -> Seq<Seq<char>>
    decreases n,
{
    if n <= 1 {
        seq![s]
    } else {
        match char_position(s, sep) {
            None => seq![s],
            Some(i) => seq![s.subrange(0, i)] + split_n(
                s.subrange(i + 1, s.len() as int),
                sep,
                (n - 1) as nat,
            ),
        }
    }
}

fn single(c: char) -> (r: Vec<char>)
    ensures
        r@ == seq![c],
{
    let mut v: Vec<char> = Vec::new();
    v.push(c);
    assert(v@ =~= seq![c]);
    v
}

/// Splits at `sep` into at most `n` pieces.
pub fn split_n_chars(s: &Vec<char>, sep: char, n: usize) -> (r: Vec<Vec<char>>)
    ensures
        r@.map_values(|p: Vec<char>| p@) == split_n(s@, sep, n as nat),
    decreases n,
{
    let whole = slice_chars(s, 0, s.len());
    assert(whole@ =~= s@);
    if n <= 1 {
        let mut v: Vec<Vec<char>> = Vec::new();
        v.push(whole);
        assert(v@.map_values(|p: Vec<char>| p@) =~= seq![s@]);
        return v;
    }
    let sepv = single(sep);
    match find_chars(s, &sepv, 0) {
        None => {
            let mut v: Vec<Vec<char>> = Vec::new();
            v.push(whole);
            assert(v@.map_values(|p: Vec<char>| p@) =~= seq![s@]);
            v
        },
        Some(i) => {
            proof {
                crate::text::lemma_find_from_found(s@, sepv@, 0);
            }
            let head = slice_chars(s, 0, i);
            let tail = slice_chars(s, i + 1, s.len());
            let mut rest = split_n_chars(&tail, sep, n - 1);
            let ghost rest_view = rest@.map_values(|p: Vec<char>| p@);
            rest.insert(0, head);
            assert(rest@.map_values(|p: Vec<char>| p@) =~= seq![s@.subrange(0, i as int)]
                + rest_view);
            rest
        },
    }
}

/// Whether the characters spell the literal.
fn is_text(v: &Vec<char>, lit: &str) -> (r: bool)
    ensures
        r == (v@ == lit@),
{
    let l = chars_of(lit);
    if v.len() != l.len() {
        return false;
    }
    let r = starts_with(v, &l);
    proof {
        if r || v@ == lit@ {
            assert(v@.subrange(0, l@.len() as int) =~= v@);
        }
    }
    r
}

// ----------------------------------------------------------------------------
// Progress lines
/// How a `PODIUM|kind|...` progress line is shown; `None` for any other
/// line.
pub open spec fn rendered_line(line: Seq<char>) -> Option<Seq<char>> {
    if !has_prefix(line, "PODIUM|"@) {
        None
    } else {
        let p = split_n(line.subrange("PODIUM|"@.len() as int, line.len() as int), '|', 5);
        let n = p.len();
        if n >= 2 && p[0] == "info"@ {
            Some("\u{2139}  "@ + p[1])
        } else if n >= 3 && p[0] == "flow"@ && p[2] == "started"@ {
            Some("\n\u{25b6}  flow: "@ + p[1])
        } else if n >= 3 && p[0] == "flow"@ && p[2] == "passed"@ {
            Some("\u{2705} flow "@ + p[1] + " passed"@)
        } else if n >= 3 && p[0] == "flow"@ && p[2] == "failed"@ {
            Some("\u{274c} flow "@ + p[1] + " FAILED"@)
        } else if n >= 4 && p[0] == "flow"@ && p[2] == "error"@ {
            Some("\u{274c} flow "@ + p[1] + " error: "@ + p[3])
        } else if n >= 4 && p[0] == "step"@ && p[2] == "passed"@ {
            Some("  \u{2713} "@ + p[1] + " ("@ + p[3] + ")"@)
        } else if n >= 4 && p[0] == "step"@ && p[2] == "failed"@ {
            Some("  \u{2717} "@ + p[1] + " ("@ + p[3] + ")"@)
        } else if n >= 3 && p[0] == "step"@ && p[2] == "skipped"@ {
            Some("  \u{2298} "@ + p[1] + " (skipped)"@)
        } else if n >= 2 && p[0] == "warning"@ {
            Some("\u{26a0}  "@ + p[1])
        } else {
            None
        }
    }
}

/// `c` first occurs at `k` in `s`, searching from `i`.
proof fn lemma_first_char_from(s: Seq<char>, c: char, i: int, k: int)
    requires
        0 <= i <= k < s.len(),
        s[k] == c,
        forall|j: int| i <= j < k ==> s[j] != c,
    ensures
        find_from(s, seq![c], i) == Some(k),
    decreases k - i,
{
    assert(s.subrange(i, i + 1) =~= seq![s[i]]);
    if i < k {
        assert(seq![s[i]][0] != seq![c][0]);
        assert(!occurs_at(s, seq![c], i));
        lemma_first_char_from(s, c, i + 1, k);
    }
}

/// A text without `c` holds no `c`, searching from `i`.
proof fn lemma_no_char_from(s: Seq<char>, c: char, i: int)
    requires
        0 <= i,
        forall|j: int| 0 <= j < s.len() ==> s[j] != c,
    ensures
        find_from(s, seq![c], i) is None,
    decreases s.len() + 1 - i,
{
    if i + 1 <= s.len() {
        assert(s.subrange(i, i + 1) =~= seq![s[i]]);
        assert(seq![s[i]][0] != seq![c][0]);
        assert(!occurs_at(s, seq![c], i));
        lemma_no_char_from(s, c, i + 1);
    }
}

/// Splitting `x`, `c`, `rest` at its first `c`, where `x` holds none.
proof fn lemma_split_at_first(x: Seq<char>, c: char, rest: Seq<char>)
    requires
        forall|j: int| 0 <= j < x.len() ==> x[j] != c,
    ensures
        char_position(x + seq![c] + rest, c) == Some(x.len() as int),
        (x + seq![c] + rest).subrange(0, x.len() as int) == x,
        (x + seq![c] + rest).subrange(x.len() + 1int, (x + seq![c] + rest).len() as int) == rest,
{
    let s = x + seq![c] + rest;
    assert forall|j: int| 0 <= j < x.len() implies s[j] != c by {
        assert(s[j] == x[j]);
    }
    lemma_first_char_from(s, c, 0, x.len() as int);
    assert(s.subrange(0, x.len() as int) =~= x);
    assert(s.subrange(x.len() + 1int, s.len() as int) =~= rest);
}

/// How a step's progress line is shown: for a line
/// `PODIUM|step|D|failed|M` (or `passed`), with `|` in neither `D` nor
/// `M`, the text is a cross (or a tick), the step's description `D` and,
/// in brackets, the time `M`.
pub proof fn lemma_step_lines(d: Seq<char>, m: Seq<char>)
    requires
        forall|j: int| 0 <= j < d.len() ==> d[j] != '|',
        forall|j: int| 0 <= j < m.len() ==> m[j] != '|',
    ensures
        rendered_line("PODIUM|step|"@ + d + "|failed|"@ + m) == Some(
            "  \u{2717} "@ + d + " ("@ + m + ")"@,
        ),
        rendered_line("PODIUM|step|"@ + d + "|passed|"@ + m) == Some(
            "  \u{2713} "@ + d + " ("@ + m + ")"@,
        ),
{
    reveal_strlit("PODIUM|step|");
    reveal_strlit("|failed|");
    reveal_strlit("|passed|");
    reveal_strlit("PODIUM|");
    reveal_strlit("step");
    reveal_strlit("failed");
    reveal_strlit("passed");
    reveal_strlit("info");
    reveal_strlit("flow");
    reveal_strlit("started");
    reveal_strlit("error");
    reveal_strlit("skipped");
    lemma_step_line(d, m, "failed"@);
    lemma_step_line(d, m, "passed"@);
    assert("PODIUM|step|"@ + d + "|failed|"@ + m =~= "PODIUM|"@ + "step"@ + seq!['|'] + d
        + seq!['|'] + "failed"@ + seq!['|'] + m);
    assert("PODIUM|step|"@ + d + "|passed|"@ + m =~= "PODIUM|"@ + "step"@ + seq!['|'] + d
        + seq!['|'] + "passed"@ + seq!['|'] + m);
    assert("step"@[0] != "info"@[0]);
    assert("step"@[0] != "flow"@[0]);
    assert("failed"@[0] != "passed"@[0]);
}

/// The pieces of a line `PODIUM|step|D|W|M`.
proof fn lemma_step_line(d: Seq<char>, m: Seq<char>, w: Seq<char>)
    requires
        forall|j: int| 0 <= j < d.len() ==> d[j] != '|',
        forall|j: int| 0 <= j < m.len() ==> m[j] != '|',
        forall|j: int| 0 <= j < w.len() ==> w[j] != '|',
    ensures
        ({
            let line = "PODIUM|"@ + "step"@ + seq!['|'] + d + seq!['|'] + w + seq!['|'] + m;
            &&& has_prefix(line, "PODIUM|"@)
            &&& split_n(line.subrange("PODIUM|"@.len() as int, line.len() as int), '|', 5)
                == seq!["step"@, d, w, m]
        }),
{
    reveal_strlit("PODIUM|");
    reveal_strlit("step");
    let line = "PODIUM|"@ + "step"@ + seq!['|'] + d + seq!['|'] + w + seq!['|'] + m;
    let r1 = w + seq!['|'] + m;
    let r0 = d + seq!['|'] + r1;
    let content = "step"@ + seq!['|'] + r0;
    assert(line.subrange(0, 7) =~= "PODIUM|"@);
    assert(line.subrange(7, line.len() as int) =~= content);
    lemma_split_at_first("step"@, '|', r0);
    lemma_split_at_first(d, '|', r1);
    lemma_split_at_first(w, '|', m);
    lemma_no_char_from(m, '|', 0);
    assert(split_n(m, '|', 2) == seq![m]);
    assert(split_n(r1, '|', 3) =~= seq![w, m]);
    assert(split_n(r0, '|', 4) =~= seq![d, w, m]);
    assert(split_n(content, '|', 5) =~= seq!["step"@, d, w, m]);
}

fn lit_then(head: &str, a: &Vec<char>) -> (r: String)
    ensures
        r@ == head@ + a@,
{
    let mut s = string_from(head);
    append_chars(&mut s, a);
    s
}

fn lit_then_lit(head: &str, a: &Vec<char>, tail: &str) -> (r: String)
    ensures
        r@ == head@ + a@ + tail@,
{
    let mut s = lit_then(head, a);
    s.append(tail);
    s
}

fn lit_then_lit_then_lit(head: &str, a: &Vec<char>, mid: &str, b: &Vec<char>, tail: &str) -> (r:
    String)
    ensures
        r@ == head@ + a@ + mid@ + b@ + tail@,
{
    let mut s = lit_then_lit(head, a, mid);
    append_chars(&mut s, b);
    s.append(tail);
    s
}

fn lit_then_lit_then(mid: &str, a: &Vec<char>, b: &Vec<char>) -> (r: String)
    ensures
        r@ == "\u{274c} flow "@ + a@ + mid@ + b@,
{
    let mut s = lit_then_lit("\u{274c} flow ", a, mid);
    append_chars(&mut s, b);
    s
}

/// Renders a `PODIUM|` progress line for the terminal.
pub fn render_podium_line(line: &str) -> (r: Option<String>)
    ensures
        match r {
            Some(s) => rendered_line(line@) == Some(s@),
            None => rendered_line(line@) is None,
        },
{
    let cs = chars_of(line);
    let prefix = chars_of("PODIUM|");
    if !starts_with(&cs, &prefix) {
        return None;
    }
    let content = slice_chars(&cs, prefix.len(), cs.len());
    let p = split_n_chars(&content, '|', 5);
    let ghost pv = p@.map_values(|x: Vec<char>| x@);
    assert(pv == split_n(line@.subrange("PODIUM|"@.len() as int, line@.len() as int), '|', 5));
    let n = p.len();
    assert(forall|i: int| 0 <= i < n ==> pv[i] == (#[trigger] p@[i])@);
    if n >= 2 && is_text(&p[0], "info") {
        Some(lit_then("\u{2139}  ", &p[1]))
    } else if n >= 3 && is_text(&p[0], "flow") && is_text(&p[2], "started") {
        Some(lit_then("\n\u{25b6}  flow: ", &p[1]))
    } else if n >= 3 && is_text(&p[0], "flow") && is_text(&p[2], "passed") {
        Some(lit_then_lit("\u{2705} flow ", &p[1], " passed"))
    } else if n >= 3 && is_text(&p[0], "flow") && is_text(&p[2], "failed") {
        Some(lit_then_lit("\u{274c} flow ", &p[1], " FAILED"))
    } else if n >= 4 && is_text(&p[0], "flow") && is_text(&p[2], "error") {
        Some(lit_then_lit_then(" error: ", &p[1], &p[3]))
    } else if n >= 4 && is_text(&p[0], "step") && is_text(&p[2], "passed") {
        Some(lit_then_lit_then_lit("  \u{2713} ", &p[1], " (", &p[3], ")"))
    } else if n >= 4 && is_text(&p[0], "step") && is_text(&p[2], "failed") {
        Some(lit_then_lit_then_lit("  \u{2717} ", &p[1], " (", &p[3], ")"))
    } else if n >= 3 && is_text(&p[0], "step") && is_text(&p[2], "skipped") {
        Some(lit_then_lit("  \u{2298} ", &p[1], " (skipped)"))
    } else if n >= 2 && is_text(&p[0], "warning") {
        Some(lit_then("\u{26a0}  ", &p[1]))
    } else {
        None
    }
}

/// Whether an output line of `am instrument` reports a failure.
pub open spec fn reports_failure(line: Seq<char>) -> bool {
    find_from(line, "INSTRUMENTATION_STATUS_CODE: -2"@, 0) is Some || find_from(
        line,
        "FAILURES!!!"@,
        0,
    ) is Some
}

pub fn instrument_line_failed(line: &str) -> (r: bool)
    ensures
        r == reports_failure(line@),
{
    let cs = chars_of(line);
    let a = chars_of("INSTRUMENTATION_STATUS_CODE: -2");
    let b = chars_of("FAILURES!!!");
    find_chars(&cs, &a, 0).is_some() || find_chars(&cs, &b, 0).is_some()
}

// ----------------------------------------------------------------------------
// Variables given as `KEY=VALUE`
/// The variable an argument assigns: the text before the first `=`, and
/// the text after it (empty when there is no `=`).
pub open spec fn assignment(s: Seq<char>) -> (Seq<char>, Seq<char>) {
    match char_position(s, '=') {
        Some(i) => (s.subrange(0, i), s.subrange(i + 1, s.len() as int)),
        None => (s, Seq::empty()),
    }
}

/// The value the arguments give `key` last.
pub open spec fn last_assigned(args: Seq<Seq<char>>, key: Seq<char>) -> Option<Seq<char>>
    decreases args.len(),
{
    if args.len() == 0 {
        None
    } else if assignment(args.last()).0 == key {
        Some(assignment(args.last()).1)
    } else {
        last_assigned(args.drop_last(), key)
    }
}

/// The value under `key`, taken by its view.
pub open spec fn env_value(env: &EnvVars, key: Seq<char>) -> Option<Seq<char>> {
    match env.lookup(key) {
        Some(v) => Some(v@),
        None => None,
    }
}

/// Reads `KEY=VALUE` arguments; a key given twice takes its last value.
pub fn parse_env(pairs: &[String]) -> (r: EnvVars)
    ensures
        forall|k: Seq<char>| #[trigger] env_value(&r, k) == last_assigned(
            pairs@.map_values(|s: String| s@),
            k,
        ),
{
    let ghost args = pairs@.map_values(|s: String| s@);
    let mut env: EnvVars = EnvVars::new();
    let mut i: usize = 0;
    while i < pairs.len()
        invariant
            i <= pairs.len(),
            args == pairs@.map_values(|s: String| s@),
            forall|k: Seq<char>| #[trigger] env_value(&env, k) == last_assigned(
                args.take(i as int),
                k,
            ),
        decreases pairs.len() - i,
    {
        let cs = chars_of(pairs[i].as_str());
        let eq = single('=');
        let (key, value) = match find_chars(&cs, &eq, 0) {
            Some(j) => {
                proof {
                    crate::text::lemma_find_from_found(cs@, eq@, 0);
                    assert(crate::text::occurs_at(cs@, eq@, j as int));
                }
                assert(j + 1 <= cs@.len());
                assert(cs@.len() == cs.len());
                (string_of(&slice_chars(&cs, 0, j)), string_of(&slice_chars(&cs, j + 1, cs.len())))
            },
            None => (string_of(&cs), String::new()),
        };
        assert(args[i as int] == pairs@[i as int]@);
        assert((key@, value@) == assignment(args[i as int]));
        let ghost before = env;
        let ghost kv = key@;
        let ghost vv = value;
        env.insert(key, value);
        proof {
            let prefix = args.take(i + 1);
            assert(prefix.drop_last() =~= args.take(i as int));
            assert(prefix.last() == args[i as int]);
            assert forall|k: Seq<char>| #[trigger] env_value(&env, k) == last_assigned(prefix, k) by {
                lemma_insert_then_lookup(before.view(), env.view(), kv, vv, k);
                if k != kv {
                    assert(env_value(&before, k) == last_assigned(args.take(i as int), k));
                }
            }
        }
        i += 1;
    }
    assert(args.take(pairs.len() as int) =~= args);
    env
}

// ----------------------------------------------------------------------------
// The instrumentation command
/// Where flows are pushed on the device.
pub const DEVICE_FLOWS_DIR: &'static str = "/data/local/tmp/podium/flows";

/// The instrumentation runner of the runner APK.
pub const RUNNER_COMPONENT: &'static str = "dev.podium.runner.test/androidx.test.runner.AndroidJUnitRunner";

/// The path a flow file is pushed to.
pub fn device_flow_path(file_name: &str) -> (r: String)
    ensures
        r@ == DEVICE_FLOWS_DIR@ + "/"@ + file_name@,
{
    let mut s = string_from(DEVICE_FLOWS_DIR);
    s.append("/");
    s.append(file_name);
    s
}

/// The `-e env.KEY VALUE` arguments for variables.
pub open spec fn env_args(vars: Seq<(Seq<char>, Seq<char>)>) -> Seq<Seq<char>>
    decreases vars.len(),
{
    if vars.len() == 0 {
        Seq::empty()
    } else {
        env_args(vars.drop_last()) + seq!["-e"@, "env."@ + vars.last().0, vars.last().1]
    }
}

/// The arguments of `adb` that run the flows: instrumentation of the
/// runner with the flows directory and every variable.
pub open spec fn instrument_args_spec(vars: Seq<(Seq<char>, Seq<char>)>) -> Seq<Seq<char>> {
    seq![
        "shell"@,
        "am"@,
        "instrument"@,
        "-w"@,
        "-r"@,
        "-e"@,
        "flowsDir"@,
        DEVICE_FLOWS_DIR@,
    ] + env_args(vars) + seq![RUNNER_COMPONENT@]
}

pub fn instrument_args(env: &EnvVars) -> (r: Vec<String>)
    ensures
        r@.map_values(|s: String| s@) == instrument_args_spec(crate::parser::env_pairs(env)),
{
    let mut args: Vec<String> = Vec::new();
    args.push(string_from("shell"));
    args.push(string_from("am"));
    args.push(string_from("instrument"));
    args.push(string_from("-w"));
    args.push(string_from("-r"));
    args.push(string_from("-e"));
    args.push(string_from("flowsDir"));
    args.push(string_from(DEVICE_FLOWS_DIR));
    let ghost head = seq![
        "shell"@,
        "am"@,
        "instrument"@,
        "-w"@,
        "-r"@,
        "-e"@,
        "flowsDir"@,
        DEVICE_FLOWS_DIR@,
    ];
    assert(args@.map_values(|s: String| s@) =~= head);
    let vars = env.entries();
    let ghost pairs = crate::parser::env_pairs(env);
    let mut i: usize = 0;
    while i < vars.len()
        invariant
            i <= vars.len(),
            pairs == crate::parser::env_pairs(env),
            vars@.map_values(|e: (String, String)| (e.0@, e.1)) == env.view(),
            args@.map_values(|s: String| s@) == head + env_args(pairs.take(i as int)),
        decreases vars.len() - i,
    {
        let ghost before = args@.map_values(|s: String| s@);
        assert(pairs[i as int] == (vars@[i as int].0@, vars@[i as int].1@));
        args.push(string_from("-e"));
        let mut name = string_from("env.");
        name.append(vars[i].0.as_str());
        args.push(name);
        args.push(vars[i].1.clone());
        proof {
            let t = pairs.take(i + 1);
            assert(t.drop_last() =~= pairs.take(i as int));
            assert(t.last() == pairs[i as int]);
            assert(args@.map_values(|s: String| s@) =~= before + seq![
                "-e"@,
                "env."@ + pairs[i as int].0,
                pairs[i as int].1,
            ]);
        }
        i += 1;
    }
    assert(pairs.take(vars.len() as int) =~= pairs);
    let ghost before = args@.map_values(|s: String| s@);
    args.push(string_from(RUNNER_COMPONENT));
    assert(args@.map_values(|s: String| s@) =~= before.push(RUNNER_COMPONENT@));
    args
}

// ----------------------------------------------------------------------------
// Bundled APKs
/// What a build without the Android artifacts embeds in place of an APK.
pub const APK_PLACEHOLDER: &'static str = "PODIUM_APK_PLACEHOLDER";

/// Whether bundled bytes are the placeholder rather than an APK.
pub fn is_apk_placeholder(bundled: &[u8]) -> (r: bool)
    ensures
        r == (bundled@ == APK_PLACEHOLDER@.map_values(|c: char| c as u8)),
{
    let p = chars_of(APK_PLACEHOLDER);
    let ghost pb = APK_PLACEHOLDER@.map_values(|c: char| c as u8);
    assert(pb.len() == p@.len());
    if bundled.len() != p.len() {
        return false;
    }
    let mut i: usize = 0;
    while i < p.len()
        invariant
            i <= p.len(),
            p@ == APK_PLACEHOLDER@,
            bundled@.len() == p@.len(),
            pb == APK_PLACEHOLDER@.map_values(|c: char| c as u8),
            forall|j: int| 0 <= j < i ==> bundled@[j] == pb[j],
        decreases p.len() - i,
    {
        if bundled[i] != p[i] as u8 {
            return false;
        }
        i += 1;
    }
    assert(bundled@ =~= pb);
    true
}

/// The name for what SHA-256 makes of the bytes.
pub uninterp spec fn sha256_digest(data: Seq<u8>) -> Seq<u8>;

/// `sha2::Sha256::digest`. The digest is named; its length, 32 bytes, is
/// what the algorithm defines.
#[verifier::external_body]
fn sha256(data: &[u8]) -> (r: Vec<u8>)
    ensures
        r@ == sha256_digest(data@),
        r@.len() == 32,
{
    <sha2::Sha256 as sha2::Digest>::digest(data).to_vec()
}

/// The number that big-endian bytes spell.
pub open spec fn big_endian(bytes: Seq<u8>) -> nat
    decreases bytes.len(),
{
    if bytes.len() == 0 {
        0
    } else {
        big_endian(bytes.drop_last()) * 256 + bytes.last() as nat
    }
}

/// The cache key of bundled APK bytes: the first 8 bytes of the SHA-256 of
/// (at most) their first 256 bytes, as a big-endian number in lower-case
/// hexadecimal.
pub open spec fn apk_key(bundled: Seq<u8>) -> Seq<char> {
    let head = if bundled.len() < 256 {
        bundled
    } else {
        bundled.subrange(0, 256)
    };
    lower_hex(big_endian(sha256_digest(head).subrange(0, 8)))
}

proof fn lemma_big_endian_bound(bytes: Seq<u8>, bound: nat)
    requires
        big_endian(bytes.drop_last()) < bound,
        bytes.len() > 0,
    ensures
        big_endian(bytes) < bound * 256,
{
    assert(big_endian(bytes) == big_endian(bytes.drop_last()) * 256 + bytes.last() as nat);
    assert(big_endian(bytes.drop_last()) * 256 + 255 < bound * 256) by (nonlinear_arith)
        requires
            big_endian(bytes.drop_last()) < bound,
    ;
}

pub fn apk_cache_key(bundled: &[u8]) -> (r: String)
    ensures
        r@ == apk_key(bundled@),
{
    let n = if bundled.len() < 256 {
        bundled.len()
    } else {
        256
    };
    let mut head: Vec<u8> = Vec::new();
    let mut i: usize = 0;
    while i < n
        invariant
            i <= n <= bundled.len(),
            head@ == bundled@.subrange(0, i as int),
        decreases n - i,
    {
        head.push(bundled[i]);
        i += 1;
        assert(head@ =~= bundled@.subrange(0, i as int));
    }
    proof {
        if bundled@.len() < 256 {
            assert(head@ =~= bundled@);
        }
    }
    let digest = sha256(head.as_slice());
    let mut value: u64 = 0;
    let mut k: usize = 0;
    let ghost mut bound: nat = 1;
    while k < 8
        invariant
            k <= 8,
            digest@.len() == 32,
            value == big_endian(digest@.subrange(0, k as int)),
            big_endian(digest@.subrange(0, k as int)) < bound,
            bound == pow256(k as nat),
        decreases 8 - k,
    {
        proof {
            let t = digest@.subrange(0, k + 1);
            assert(t.drop_last() =~= digest@.subrange(0, k as int));
            lemma_pow256_le(k as nat);
            lemma_big_endian_bound(t, bound);
            lemma_pow256_le((k + 1) as nat);
            assert(bound * 256 == pow256((k + 1) as nat));
        }
        value = value * 256 + digest[k] as u64;
        k += 1;
        proof {
            bound = bound * 256;
        }
    }
    let hex = lower_hex_chars(value);
    string_of(&hex)
}

/// 256 to the power `k`.
pub open spec fn pow256(k: nat) -> nat
    decreases k,
{
    if k == 0 {
        1
    } else {
        256 * pow256((k - 1) as nat)
    }
}

proof fn lemma_pow256_le(k: nat)
    requires
        k <= 8,
    ensures
        pow256(k) <= 0x1_0000_0000_0000_0000,
{
    reveal_with_fuel(pow256, 9);
    assert(pow256(8) == 0x1_0000_0000_0000_0000);
    if k < 8 {
        lemma_pow256_mono(k, 8);
    }
}

proof fn lemma_pow256_mono(a: nat, b: nat)
    requires
        a <= b,
    ensures
        pow256(a) <= pow256(b),
    decreases b,
{
    if a < b {
        lemma_pow256_mono(a, (b - 1) as nat);
    }
}

// ----------------------------------------------------------------------------
// Verdicts
/// Every entry holds.
pub open spec fn all_hold(v: Seq<bool>) -> bool {
    forall|i: int| 0 <= i < v.len() ==> v[i]
}

fn all_true(v: &Vec<bool>) -> (r: bool)
    ensures
        r == all_hold(v@),
{
    let mut i: usize = 0;
    while i < v.len()
        invariant
            i <= v.len(),
            forall|j: int| 0 <= j < i ==> v@[j],
        decreases v.len() - i,
    {
        if !v[i] {
            return false;
        }
        i += 1;
    }
    true
}

/// Whether there was at least one flow file and every one was read and
/// parsed; a test run touches the device only then, and validation
/// succeeds only then.
pub fn flows_valid(parsed: &Vec<bool>) -> (r: bool)
    ensures
        r == (parsed@.len() > 0 && all_hold(parsed@)),
{
    parsed.len() > 0 && all_true(parsed)
}

/// Whether an instrumentation run passed: no output line reported a
/// failure and adb exited successfully.
pub fn instrument_passed(failure_reported: bool, exit_success: bool) -> (r: bool)
    ensures
        r == (!failure_reported && exit_success),
{
    !failure_reported && exit_success
}

} // verus!
