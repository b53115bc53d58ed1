//! Reading the operator's command line before the full parser runs: the
//! locale it asks for, whether it only asks for help, whether a demo
//! lifecycle command is handed to `greentic-start`, and how rendered help is
//! localized.
use vstd::prelude::*;

use crate::text::{
    chars_of, contains_char, ends_with, is_ws, seq_ends_with, seq_starts_with, slice_chars,
    starts_with, string_of, text, text_eq, texts_of, trim, trim_seq,
};

verus! {

/// The value after `--locale=` in `arg`, if it starts so.
pub open spec fn locale_suffix(arg: Seq<char>) -> Option<Seq<char>> {
    if seq_starts_with(arg, "--locale="@) {
        Some(arg.skip(9))
    } else {
        None
    }
}

/// The locale asked for from argument `i` on: `--locale=<value>` or
/// `--locale <value>` with a value that is not blank, trimmed.
pub open spec fn locale_from(args: Seq<Seq<char>>, i: int) -> Option<Seq<char>>
    decreases args.len() - i,
{
    if i < 0 || i >= args.len() {
        None
    } else if locale_suffix(args[i]) is Some && trim_seq(locale_suffix(args[i])->0).len() > 0 {
        Some(trim_seq(locale_suffix(args[i])->0))
    } else if args[i] == "--locale"@ && i + 1 < args.len() && trim_seq(args[i + 1]).len() > 0 {
        Some(trim_seq(args[i + 1]))
    } else {
        locale_from(args, i + 1)
    }
}

/// The locale the command line asks for.
pub fn cli_locale_arg(args: &Vec<String>) -> (r: Option<String>)
    ensures
        crate::static_routes::opt_view(r) == locale_from(texts_of(args@), 0),
{
    proof {
        reveal_strlit("--locale=");
        reveal_strlit("--locale");
    }
    let ghost a = texts_of(args@);
    let mut idx: usize = 0;
    while idx < args.len()
        invariant
            idx <= a.len(),
            a == texts_of(args@),
            locale_from(a, 0) == locale_from(a, idx as int),
        decreases a.len() - idx,
    {
        let arg = args[idx].as_str();
        assert(a[idx as int] == arg@);
        proof {
            reveal_strlit("--locale=");
            reveal_strlit("--locale");
        }
        if starts_with(arg, "--locale=") {
            assert("--locale="@.len() == 9);
            let v = chars_of(arg);
            let rest = slice_chars(v.as_slice(), 9, v.len());
            assert(rest@ =~= arg@.skip(9));
            let value = string_of(rest.as_slice());
            let trimmed = trim(value.as_str());
            if trimmed.as_str().unicode_len() > 0 {
                return Some(trimmed);
            }
        }
        if text_eq(arg, "--locale") && idx + 1 < args.len() {
            let value = args[idx + 1].as_str();
            assert(a[idx + 1] == value@);
            let trimmed = trim(value);
            if trimmed.as_str().unicode_len() > 0 {
                return Some(trimmed);
            }
        }
        idx += 1;
    }
    None
}

/// Scans the arguments from `i` on: whether `--help` or `-h` occurs, and the
/// positional arguments, skipping options, `--locale` with its value, and
/// `--locale=<value>`.
pub open spec fn scan_args(args: Seq<Seq<char>>, i: int) -> (bool, Seq<Seq<char>>)
    decreases args.len() - i,
{
    if i < 0 || i >= args.len() {
        (false, Seq::empty())
    } else {
        let a = args[i];
        if a == "--help"@ || a == "-h"@ {
            let rest = scan_args(args, i + 1);
            (true, rest.1)
        } else if a == "--locale"@ {
            if i + 1 < args.len() {
                scan_args(args, i + 2)
            } else {
                (false, Seq::empty())
            }
        } else if seq_starts_with(a, "--locale="@) || (a.len() > 0 && a[0] == '-') {
            scan_args(args, i + 1)
        } else {
            let rest = scan_args(args, i + 1);
            (rest.0, seq![a] + rest.1)
        }
    }
}

/// Whether the command line asks for help, and its positional arguments.
pub fn help_context(args: &Vec<String>) -> (r: (bool, Vec<String>))
    ensures
        r.0 == scan_args(texts_of(args@), 0).0,
        texts_of(r.1@) == scan_args(texts_of(args@), 0).1,
{
    proof {
        reveal_strlit("--help");
        reveal_strlit("-h");
        reveal_strlit("--locale");
        reveal_strlit("--locale=");
    }
    let ghost a = texts_of(args@);
    let mut has_help_flag = false;
    let mut positionals: Vec<String> = Vec::new();
    let mut idx: usize = 0;
    assert(texts_of(positionals@) + scan_args(a, 0).1 =~= scan_args(a, 0).1);
    while idx < args.len()
        invariant
            a == texts_of(args@),
            (has_help_flag || scan_args(a, idx as int).0) == scan_args(a, 0).0,
            texts_of(positionals@) + scan_args(a, idx as int).1 == scan_args(a, 0).1,
        decreases a.len() - idx,
    {
        let arg = args[idx].as_str();
        assert(a[idx as int] == arg@);
        if text_eq(arg, "--help") || text_eq(arg, "-h") {
            has_help_flag = true;
            idx += 1;
            continue;
        }
        if text_eq(arg, "--locale") {
            if idx + 1 >= args.len() {
                idx = args.len();
                assert(scan_args(a, idx as int) == (false, Seq::<Seq<char>>::empty()));
                continue;
            }
            idx += 2;
            continue;
        }
        let v = chars_of(arg);
        if starts_with(arg, "--locale=") || (v.len() > 0 && v[0] == '-') {
            idx += 1;
            continue;
        }
        let ghost before = texts_of(positionals@);
        positionals.push(text(arg));
        assert(texts_of(positionals@) =~= before.push(arg@));
        assert(texts_of(positionals@) + scan_args(a, idx + 1).1 =~= before + (seq![arg@]
            + scan_args(a, idx + 1).1));
        idx += 1;
    }
    assert(texts_of(positionals@) =~= texts_of(positionals@) + scan_args(a, idx as int).1);
    (has_help_flag, positionals)
}

/// Whether the command line only asks for help, with no subcommand.
pub fn should_print_top_level_help(args: &Vec<String>) -> (r: bool)
    ensures
        r == (scan_args(texts_of(args@), 0).0 && scan_args(texts_of(args@), 0).1.len() == 0),
{
    let (help, positionals) = help_context(args);
    help && positionals.len() == 0
}

/// Whether the command line asks for help on `demo` alone.
pub fn should_print_demo_help(args: &Vec<String>) -> (r: bool)
    ensures
        r == (scan_args(texts_of(args@), 0).0 && scan_args(texts_of(args@), 0).1 == seq![
            "demo"@,
        ]),
{
    proof {
        reveal_strlit("demo");
    }
    let (help, positionals) = help_context(args);
    if !help || positionals.len() != 1 {
        proof {
            if positionals@.len() != 1 {
                assert(texts_of(positionals@).len() != seq!["demo"@].len());
            }
        }
        return false;
    }
    let r = text_eq(positionals[0].as_str(), "demo");
    proof {
        assert(texts_of(positionals@)[0] == positionals@[0]@);
        if r {
            assert(texts_of(positionals@) =~= seq!["demo"@]);
        } else {
            assert(texts_of(positionals@)[0] != seq!["demo"@][0]);
        }
    }
    r
}

pub open spec fn is_lifecycle_word(w: Seq<char>) -> bool {
    w == "start"@ || w == "up"@ || w == "stop"@ || w == "restart"@
}

/// Whether `demo start|up|stop|restart` is handed to `greentic-start`: never
/// when the operator runs as `greentic-start`'s own child (`start_internal`).
pub fn should_delegate_demo_lifecycle(args: &Vec<String>, start_internal: bool) -> (r: bool)
    ensures
        r == (!start_internal && {
            let p = scan_args(texts_of(args@), 0).1;
            p.len() >= 2 && p[0] == "demo"@ && is_lifecycle_word(p[1])
        }),
{
    if start_internal {
        return false;
    }
    proof {
        reveal_strlit("demo");
        reveal_strlit("start");
        reveal_strlit("up");
        reveal_strlit("stop");
        reveal_strlit("restart");
    }
    let (_, positionals) = help_context(args);
    if positionals.len() < 2 {
        return false;
    }
    let w = positionals[1].as_str();
    text_eq(positionals[0].as_str(), "demo") && (text_eq(w, "start") || text_eq(w, "up") || text_eq(
        w,
        "stop",
    ) || text_eq(w, "restart"))
}

// ---------------------------------------------------------------------------
// Localizing rendered help
// ---------------------------------------------------------------------------

/// How many bytes UTF-8 takes for `c`.
pub open spec fn utf8_width(c: char) -> nat {
    let u = c as u32;
    if u < 0x80 {
        1
    } else if u < 0x800 {
        2
    } else if u < 0x10000 {
        3
    } else {
        4
    }
}

/// The UTF-8 length of a text (`str::len`).
pub open spec fn utf8_len(s: Seq<char>) -> nat
    decreases s.len(),
{
    if s.len() == 0 {
        0
    } else {
        utf8_len(s.drop_last()) + utf8_width(s.last())
    }
}

/// The UTF-8 length of a text.
pub fn byte_len(s: &str) -> (r: u128)
    ensures
        r as nat == utf8_len(s@),
{
    let v = chars_of(s);
    let mut n: u128 = 0;
    let mut i: usize = 0;
    while i < v.len()
        invariant
            i <= v@.len(),
            v@ == s@,
            n as nat == utf8_len(s@.take(i as int)),
            n <= 4 * i,
        decreases v@.len() - i,
    {
        let u = v[i] as u32;
        let w: u128 = if u < 0x80 {
            1
        } else if u < 0x800 {
            2
        } else if u < 0x10000 {
            3
        } else {
            4
        };
        assert(s@.take(i + 1).drop_last() =~= s@.take(i as int));
        assert(s@.take(i + 1).last() == v@[i as int]);
        assert(n + w <= 4 * (i + 1));
        n = n + w;
        i += 1;
    }
    assert(s@.take(s@.len() as int) =~= s@);
    n
}

/// Whether an English help text is worth replacing in rendered help: at
/// least six bytes once trimmed, and holding white space, ending in `:`,
/// starting with `--`, or holding `/` or `(`.
pub open spec fn replacement_candidate(value: Seq<char>) -> bool {
    let t = trim_seq(value);
    &&& utf8_len(t) >= 6
    &&& {
        ||| exists|i: int| 0 <= i < t.len() && is_ws(t[i])
        ||| seq_ends_with(t, ":"@)
        ||| seq_starts_with(t, "--"@)
        ||| t.contains('/')
        ||| t.contains('(')
    }
}

/// Whether an English help text is worth replacing in rendered help.
pub fn is_help_replacement_candidate(value: &str) -> (r: bool)
    ensures
        r == replacement_candidate(value@),
{
    let t = trim(value);
    if byte_len(t.as_str()) < 6 {
        return false;
    }
    let v = chars_of(t.as_str());
    let mut has_ws = false;
    let mut i: usize = 0;
    while i < v.len()
        invariant
            i <= v@.len(),
            v@ == t@,
            has_ws == exists|k: int| 0 <= k < i && is_ws(v@[k]),
        decreases v@.len() - i,
    {
        if crate::text::char_is_ws(v[i]) {
            has_ws = true;
        }
        i += 1;
    }
    has_ws || ends_with(t.as_str(), ":") || starts_with(t.as_str(), "--") || contains_char(
        t.as_str(),
        '/',
    ) || contains_char(t.as_str(), '(')
}

/// `s.replace(from, to)`: each occurrence of `from`, left to right and not
/// overlapping, replaced by `to`.
pub open spec fn replaced(s: Seq<char>, from: Seq<char>, to: Seq<char>) -> Seq<char>
    decreases s.len(),
{
    if from.len() == 0 || s.len() == 0 {
        s
    } else if seq_starts_with(s, from) {
        to + replaced(s.skip(from.len() as int), from, to)
    } else {
        seq![s[0]] + replaced(s.drop_first(), from, to)
    }
}

/// Replaces each occurrence of a non-empty `from` in `s` by `to`.
pub fn replace_text(s: &str, from: &str, to: &str) -> (r: String)
    requires
        from@.len() > 0,
    ensures
        r@ == replaced(s@, from@, to@),
{
    let v = chars_of(s);
    let f = chars_of(from);
    let t = chars_of(to);
    let mut out: Vec<char> = Vec::new();
    let mut i: usize = 0;
    assert(s@.skip(0) =~= s@);
    while i < v.len()
        invariant
            i <= v@.len(),
            v@ == s@,
            f@ == from@,
            t@ == to@,
            f@.len() > 0,
            out@ + replaced(s@.skip(i as int), from@, to@) == replaced(s@, from@, to@),
        decreases v@.len() - i,
    {
        let ghost rest = s@.skip(i as int);
        let vl = v.len();
        let mut matches = f.len() <= vl - i;
        let mut k: usize = 0;
        while matches && k < f.len()
            invariant
                vl == v@.len(),
                i < vl,
                matches ==> i + f@.len() <= vl,
                k <= f@.len(),
                v@ == s@,
                rest == s@.skip(i as int),
                matches ==> forall|j: int| 0 <= j < k ==> v@[i + j] == f@[j],
                !matches ==> !seq_starts_with(rest, f@),
            decreases f@.len() - k + (if matches {
                1int
            } else {
                0int
            }),
        {
            assert(i + k < v@.len());
            if v[i + k] != f[k] {
                matches = false;
                assert(rest.take(f@.len() as int)[k as int] != f@[k as int]);
            } else {
                k += 1;
            }
        }
        if matches {
            assert(rest.take(f@.len() as int) =~= f@);
            let mut j: usize = 0;
            let ghost before = out@;
            while j < t.len()
                invariant
                    j <= t@.len(),
                    out@ == before + t@.take(j as int),
                decreases t@.len() - j,
            {
                out.push(t[j]);
                j += 1;
                assert(out@ =~= before + t@.take(j as int));
            }
            assert(t@.take(t@.len() as int) =~= t@);
            assert(rest.skip(f@.len() as int) =~= s@.skip(i + f@.len()));
            assert(out@ + replaced(s@.skip(i + f@.len()), from@, to@) =~= before + (to@ + replaced(
                rest.skip(f@.len() as int),
                from@,
                to@,
            )));
            i = i + f.len();
        } else {
            let ghost before = out@;
            out.push(v[i]);
            assert(rest.drop_first() =~= s@.skip(i + 1));
            assert(rest[0] == v@[i as int]);
            assert(out@ + replaced(s@.skip(i + 1), from@, to@) =~= before + (seq![rest[0]]
                + replaced(rest.drop_first(), from@, to@)));
            i += 1;
        }
    }
    assert(s@.skip(i as int) =~= Seq::<char>::empty());
    assert(out@ =~= out@ + replaced(s@.skip(i as int), from@, to@));
    string_of(out.as_slice())
}

/// The replacements rendered help gets, from the English help texts each
/// with its localized text (`None` when the locale has none), in catalogue
/// order: a non-empty English text that is a replacement candidate and has a
/// different localized text.
pub open spec fn help_pairs(entries: Seq<(Seq<char>, Option<Seq<char>>)>) -> Seq<
    (Seq<char>, Seq<char>),
>
    decreases entries.len(),
{
    if entries.len() == 0 {
        Seq::empty()
    } else {
        let (en, loc) = entries.last();
        help_pairs(entries.drop_last()) + match loc {
            Some(l) => if en.len() > 0 && replacement_candidate(en) && l != en {
                seq![(en, l)]
            } else {
                Seq::empty()
            },
            None => Seq::empty(),
        }
    }
}

/// The first position from `k` on whose English text is shorter (in bytes)
/// than `n`, or the length.
pub open spec fn first_shorter(s: Seq<(Seq<char>, Seq<char>)>, n: nat, k: int) -> int
    decreases s.len() - k,
{
    if k < 0 || k >= s.len() {
        s.len() as int
    } else if utf8_len(s[k].0) < n {
        k
    } else {
        first_shorter(s, n, k + 1)
    }
}

proof fn lemma_first_shorter_bound(s: Seq<(Seq<char>, Seq<char>)>, n: nat, k: int)
    requires
        0 <= k <= s.len(),
    ensures
        k <= first_shorter(s, n, k) <= s.len(),
    decreases s.len() - k,
{
    if k < s.len() && utf8_len(s[k].0) >= n {
        lemma_first_shorter_bound(s, n, k + 1);
    }
}

/// The pairs ordered by the byte length of their English text, longest
/// first, pairs of the same length in their original order.
pub open spec fn by_length_desc(s: Seq<(Seq<char>, Seq<char>)>) -> Seq<(Seq<char>, Seq<char>)>
    decreases s.len(),
{
    if s.len() == 0 {
        Seq::empty()
    } else {
        let sorted = by_length_desc(s.drop_last());
        let x = s.last();
        sorted.insert(first_shorter(sorted, utf8_len(x.0), 0), x)
    }
}

proof fn lemma_by_length_len(s: Seq<(Seq<char>, Seq<char>)>)
    ensures
        by_length_desc(s).len() == s.len(),
    decreases s.len(),
{
    if s.len() > 0 {
        lemma_by_length_len(s.drop_last());
        lemma_first_shorter_bound(by_length_desc(s.drop_last()), utf8_len(s.last().0), 0);
    }
}

/// `text` with each pair's English text replaced by its localized text, in order.
pub open spec fn apply_replacements(text: Seq<char>, pairs: Seq<(Seq<char>, Seq<char>)>) -> Seq<char>
    decreases pairs.len(),
{
    if pairs.len() == 0 {
        text
    } else {
        replaced(apply_replacements(text, pairs.drop_last()), pairs.last().0, pairs.last().1)
    }
}

pub open spec fn entries_view(entries: Seq<(String, Option<String>)>) -> Seq<
    (Seq<char>, Option<Seq<char>>),
> {
    entries.map_values(|e: (String, Option<String>)| (e.0@, crate::static_routes::opt_view(e.1)))
}

pub open spec fn pairs_view(pairs: Seq<(String, String)>) -> Seq<(Seq<char>, Seq<char>)> {
    pairs.map_values(|p: (String, String)| (p.0@, p.1@))
}

/// Localizes rendered help: each English help text with a different
/// localized text, longest first, is replaced by it.
pub fn localize_help_text(rendered: &str, entries: &Vec<(String, Option<String>)>) -> (r: String)
    ensures
        r@ == apply_replacements(rendered@, by_length_desc(help_pairs(entries_view(entries@)))),
{
    let ghost ev = entries_view(entries@);
    let mut pairs: Vec<(String, String)> = Vec::new();
    let mut i: usize = 0;
    assert(ev.take(0) =~= Seq::<(Seq<char>, Option<Seq<char>>)>::empty());
    assert(pairs_view(pairs@) =~= by_length_desc(help_pairs(ev.take(0))));
    while i < entries.len()
        invariant
            i <= ev.len(),
            ev == entries_view(entries@),
            pairs_view(pairs@) == by_length_desc(help_pairs(ev.take(i as int))),
            forall|k: int| 0 <= k < pairs@.len() ==> (#[trigger] pairs@[k]).0@.len() > 0,
        decreases ev.len() - i,
    {
        let ghost before = pairs_view(pairs@);
        assert(ev.take(i + 1).drop_last() =~= ev.take(i as int));
        assert(ev.take(i + 1).last() == ev[i as int]);
        let en = entries[i].0.as_str();
        let keep = match &entries[i].1 {
            Some(loc) => en.unicode_len() > 0 && is_help_replacement_candidate(en) && !text_eq(
                loc.as_str(),
                en,
            ),
            None => false,
        };
        if keep {
            let loc = match &entries[i].1 {
                Some(l) => l.clone(),
                None => String::new(),
            };
            let n = byte_len(en);
            let mut p: usize = 0;
            proof {
                lemma_first_shorter_bound(before, n as nat, 0);
            }
            while p < pairs.len() && byte_len(pairs[p].0.as_str()) >= n
                invariant
                    p <= pairs@.len(),
                    pairs_view(pairs@) == before,
                    first_shorter(before, n as nat, 0) == first_shorter(before, n as nat, p as int),
                decreases pairs@.len() - p,
            {
                assert(before[p as int].0 == pairs@[p as int].0@);
                p += 1;
            }
            proof {
                if p < pairs@.len() {
                    assert(before[p as int].0 == pairs@[p as int].0@);
                }
            }
            let ghost x = (en@, loc@);
            pairs.insert(p, (text(en), loc));
            proof {
                assert(pairs_view(pairs@) =~= before.insert(p as int, x));
                assert(help_pairs(ev.take(i + 1)) =~= help_pairs(ev.take(i as int)).push(x));
                assert(help_pairs(ev.take(i + 1)).drop_last() =~= help_pairs(ev.take(i as int)));
            }
        } else {
            proof {
                assert(help_pairs(ev.take(i + 1)) =~= help_pairs(ev.take(i as int)));
            }
        }
        i += 1;
    }
    assert(ev.take(ev.len() as int) =~= ev);
    let ghost sorted = pairs_view(pairs@);
    let mut out = text(rendered);
    let mut k: usize = 0;
    assert(sorted.take(0) =~= Seq::<(Seq<char>, Seq<char>)>::empty());
    while k < pairs.len()
        invariant
            k <= pairs@.len(),
            sorted == pairs_view(pairs@),
            forall|j: int| 0 <= j < pairs@.len() ==> (#[trigger] pairs@[j]).0@.len() > 0,
            out@ == apply_replacements(rendered@, sorted.take(k as int)),
        decreases pairs@.len() - k,
    {
        assert(sorted.take(k + 1).drop_last() =~= sorted.take(k as int));
        assert(sorted.take(k + 1).last() == sorted[k as int]);
        out = replace_text(out.as_str(), pairs[k].0.as_str(), pairs[k].1.as_str());
        k += 1;
    }
    assert(sorted.take(sorted.len() as int) =~= sorted);
    out
}

} // verus!
