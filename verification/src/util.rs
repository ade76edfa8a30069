//! Useful utilities for running commands: bash escaping, command builders,
//! and helpers that drive a sequence of commands against a shell.

use vstd::prelude::*;
use vstd::string::StringExecFns;

use crate::errors::SshError;
use crate::ssh::fresh_command;
use crate::ssh::ran_events;
use crate::ssh::with_dry_run;
use crate::ssh::with_use_bash;
use crate::ssh::CommandModel;
use crate::ssh::Execute;
use crate::ssh::ShellEvent;
use crate::ssh::SshCommand;
use crate::ssh::SshOutput;

verus! {

/// Relies on `String::push`: appends the given character to the end of the
/// string.
pub assume_specification[ String::push ](s: &mut String, c: char)
    ensures
        final(s)@ == old(s)@.push(c),
;

/// The escape sequence that one character contributes to the quote-wrapped
/// form: a single quote becomes `'"'"'` (close the quoting, insert a
/// double-quoted single quote, reopen), every other character stands as it
/// is.
pub open spec fn escape_char(c: char) -> Seq<char> {
    if c == '\'' {
        seq!['\'', '"', '\'', '"', '\'']
    } else {
        seq![c]
    }
}

/// The body of the quote-wrapped form of `s`: each character replaced by its
/// escape sequence.
pub open spec fn escape_body(s: Seq<char>) -> Seq<char>
    decreases s.len(),
{
    if s.len() == 0 {
        Seq::empty()
    } else {
        escape_char(s[0]) + escape_body(s.drop_first())
    }
}

/// The quote-wrapped form of `s`: the escaped body wrapped in single quotes.
pub open spec fn escaped(s: Seq<char>) -> Seq<char> {
    seq!['\''] + escape_body(s) + seq!['\'']
}

/// Characters that a POSIX shell treats specially inside double quotes.
pub open spec fn special_in_double_quotes(c: char) -> bool {
    c == '$' || c == '`' || c == '\\' || c == '"'
}

/// A model of a POSIX shell reading one fully quoted word: outside quotes,
/// only a quote opener or the end of the word is accepted (an unquoted
/// character would be subject to interpretation, so the model rejects it).
/// Returns the text the word stands for, or `None` if the input is not one
/// fully quoted word.
pub open spec fn parse_word(s: Seq<char>) -> Option<Seq<char>>
    decreases s.len(),
{
    if s.len() == 0 {
        Some(Seq::empty())
    } else if s[0] == '\'' {
        parse_single(s.drop_first())
    } else if s[0] == '"' {
        parse_double(s.drop_first())
    } else {
        None
    }
}

/// A model of a POSIX shell inside single quotes: every character up to the
/// closing quote is literal; an unterminated quote is rejected.
pub open spec fn parse_single(s: Seq<char>) -> Option<Seq<char>>
    decreases s.len(),
{
    if s.len() == 0 {
        None
    } else if s[0] == '\'' {
        parse_word(s.drop_first())
    } else {
        match parse_single(s.drop_first()) {
            Some(t) => Some(seq![s[0]] + t),
            None => None,
        }
    }
}

/// A model of a POSIX shell inside double quotes: characters up to the
/// closing double quote are literal, except the ones the shell treats
/// specially there, which the model rejects; an unterminated quote is
/// rejected.
pub open spec fn parse_double(s: Seq<char>) -> Option<Seq<char>>
    decreases s.len(),
{
    if s.len() == 0 {
        None
    } else if s[0] == '"' {
        parse_word(s.drop_first())
    } else if special_in_double_quotes(s[0]) {
        None
    } else {
        match parse_double(s.drop_first()) {
            Some(t) => Some(seq![s[0]] + t),
            None => None,
        }
    }
}

proof fn lemma_parse_escaped_body(s: Seq<char>)
    ensures
        parse_single(escape_body(s) + seq!['\'']) == Some(s),
    decreases s.len(),
{
    let x = escape_body(s) + seq!['\''];
    if s.len() == 0 {
        assert(escape_body(s) == Seq::<char>::empty());
        assert(x =~= seq!['\'']);
        assert(x[0] == '\'');
        assert(x.drop_first() =~= Seq::<char>::empty());
        assert(parse_word(Seq::<char>::empty()) == Some(Seq::<char>::empty()));
        assert(parse_single(x) == Some(Seq::<char>::empty()));
        assert(s =~= Seq::<char>::empty());
    } else {
        let c = s[0];
        let rest = s.drop_first();
        lemma_parse_escaped_body(rest);
        let tail = escape_body(rest) + seq!['\''];
        if c == '\'' {
            assert(escape_body(s) == seq!['\'', '"', '\'', '"', '\''] + escape_body(rest));
            assert(x[0] == '\'');
            let x1 = x.drop_first();
            assert(x1 =~= seq!['"', '\'', '"', '\''] + tail);
            assert(x1[0] == '"');
            let x2 = x1.drop_first();
            assert(x2 =~= seq!['\'', '"', '\''] + tail);
            assert(x2[0] == '\'');
            let x3 = x2.drop_first();
            assert(x3 =~= seq!['"', '\''] + tail);
            assert(x3[0] == '"');
            let x4 = x3.drop_first();
            assert(x4 =~= seq!['\''] + tail);
            assert(x4[0] == '\'');
            let x5 = x4.drop_first();
            assert(x5 =~= tail);
            assert(parse_single(x5) == Some(rest));
            assert(parse_word(x4) == Some(rest));
            assert(parse_double(x3) == Some(rest));
            assert(parse_double(x2) == Some(seq!['\''] + rest));
            assert(parse_word(x1) == Some(seq!['\''] + rest));
            assert(parse_single(x) == Some(seq!['\''] + rest));
            assert(seq!['\''] + rest =~= s);
        } else {
            assert(escape_body(s) == seq![c] + escape_body(rest));
            assert(x[0] == c);
            assert(x.drop_first() =~= tail);
            assert(parse_single(x.drop_first()) == Some(rest));
            assert(parse_single(x) == Some(seq![c] + rest));
            assert(seq![c] + rest =~= s);
        }
    }
}

/// Quote-wrap escaping round-trips: for every input `s`, the escaped form is
/// one fully quoted shell word, and the text it stands for — what a POSIX
/// shell hands to the command as a single argument, for example through
/// `bash -c` — is exactly `s`, including embedded single quotes, double
/// quotes, dollar signs, backquotes and pipes.
pub proof fn lemma_escape_round_trip(s: Seq<char>)
    ensures
        parse_word(escaped(s)) == Some(s),
{
    lemma_parse_escaped_body(s);
    let e = escaped(s);
    assert(e[0] == '\'');
    assert(e.drop_first() =~= escape_body(s) + seq!['\'']);
}

proof fn lemma_escape_body_push(a: Seq<char>, c: char)
    ensures
        escape_body(a.push(c)) == escape_body(a) + escape_char(c),
    decreases a.len(),
{
    if a.len() == 0 {
        assert(a.push(c)[0] == c);
        assert(a.push(c).drop_first() =~= Seq::<char>::empty());
        assert(escape_body(Seq::<char>::empty()) == Seq::<char>::empty());
        assert(escape_body(a.push(c)) == escape_char(c) + Seq::<char>::empty());
        assert(escape_char(c) + Seq::<char>::empty() =~= escape_char(c));
        assert(escape_body(a) == Seq::<char>::empty());
        assert(escape_body(a) + escape_char(c) =~= escape_char(c));
    } else {
        lemma_escape_body_push(a.drop_first(), c);
        assert(a.push(c)[0] == a[0]);
        assert(a.push(c).drop_first() =~= a.drop_first().push(c));
        assert(escape_body(a.push(c)) == escape_char(a[0]) + escape_body(a.drop_first().push(c)));
        assert(escape_char(a[0]) + (escape_body(a.drop_first()) + escape_char(c)) =~= (escape_char(
            a[0],
        ) + escape_body(a.drop_first())) + escape_char(c));
    }
}

/// ASCII whitespace, as it separates the columns and lines of the
/// device-listing output that the helpers below read.  This is a
/// deliberately narrow reading of whitespace: the listings parsed here are
/// ASCII, so the exotic Unicode space characters are treated as ordinary
/// name characters.
pub open spec fn is_blank(c: char) -> bool {
    c == ' ' || c == '\t' || c == '\r' || c == '\n'
}

/// Exec mirror of [`is_blank`].
pub fn is_blank_char(c: char) -> (r: bool)
    ensures
        r == is_blank(c),
{
    c == ' ' || c == '\t' || c == '\r' || c == '\n'
}

/// A line with a trailing carriage return removed, as the `lines` convention
/// has it.
pub open spec fn strip_cr(line: Seq<char>) -> Seq<char> {
    if line.len() > 0 && line[line.len() - 1] == '\r' {
        line.drop_last()
    } else {
        line
    }
}

/// The lines of the text `s + cur`, where `cur` is the part of the current
/// line read so far: lines are separated by `'\n'`, a trailing `'\r'` is
/// removed from each, and a final newline does not open an empty last line.
pub open spec fn lines_rec(s: Seq<char>, cur: Seq<char>) -> Seq<Seq<char>>
    decreases s.len(),
{
    if s.len() == 0 {
        if cur.len() == 0 {
            Seq::empty()
        } else {
            seq![strip_cr(cur)]
        }
    } else if s[0] == '\n' {
        seq![strip_cr(cur)] + lines_rec(s.drop_first(), Seq::empty())
    } else {
        lines_rec(s.drop_first(), cur.push(s[0]))
    }
}

/// The lines of the text `s`, with the same behaviour as `str::lines`: split
/// at `'\n'`, a trailing `'\r'` removed from each line, no empty line after a
/// final newline.
pub open spec fn spec_lines(s: Seq<char>) -> Seq<Seq<char>> {
    lines_rec(s, Seq::empty())
}

/// What is left of `s` after removing leading blanks.
pub open spec fn drop_leading_blanks(s: Seq<char>) -> Seq<char>
    decreases s.len(),
{
    if s.len() == 0 {
        s
    } else if is_blank(s[0]) {
        drop_leading_blanks(s.drop_first())
    } else {
        s
    }
}

/// What is left of `s` after removing trailing blanks.
pub open spec fn drop_trailing_blanks(s: Seq<char>) -> Seq<char>
    decreases s.len(),
{
    if s.len() == 0 {
        s
    } else if is_blank(s[s.len() - 1]) {
        drop_trailing_blanks(s.drop_last())
    } else {
        s
    }
}

/// `s` with leading and trailing blanks removed.
pub open spec fn trimmed(s: Seq<char>) -> Seq<char> {
    drop_trailing_blanks(drop_leading_blanks(s))
}

proof fn lemma_drop_leading_blanks_skip(s: Seq<char>, a: int)
    requires
        0 <= a <= s.len(),
        forall|j: int| 0 <= j < a ==> is_blank(s[j]),
        a == s.len() || !is_blank(s[a]),
    ensures
        drop_leading_blanks(s) == s.skip(a),
    decreases a,
{
    if a == 0 {
        assert(s.skip(0) =~= s);
    } else {
        lemma_drop_leading_blanks_skip(s.drop_first(), a - 1);
        assert(s.drop_first().skip(a - 1) =~= s.skip(a));
    }
}

proof fn lemma_drop_trailing_blanks_take(s: Seq<char>, b: int)
    requires
        0 <= b <= s.len(),
        forall|j: int| b <= j < s.len() ==> is_blank(s[j]),
        b == 0 || !is_blank(s[b - 1]),
    ensures
        drop_trailing_blanks(s) == s.take(b),
    decreases s.len() - b,
{
    if b == s.len() {
        assert(s.take(b) =~= s);
    } else {
        assert(is_blank(s[s.len() - 1]));
        lemma_drop_trailing_blanks_take(s.drop_last(), b);
        assert(s.drop_last().take(b) =~= s.take(b));
    }
}

/// Strips leading and trailing blanks from `s`, as `trim` does on the
/// device-listing output read here.
pub fn trim_blanks(s: &str) -> (r: String)
    ensures
        r@ == trimmed(s@),
{
    let n: usize = s.unicode_len();
    let mut a: usize = 0;
    while a < n && is_blank_char(s.get_char(a))
        invariant
            n == s@.len(),
            a <= n,
            forall|j: int| 0 <= j < a ==> is_blank(s@[j]),
        decreases n - a,
    {
        a = a + 1;
    }
    let mut b: usize = n;
    while b > a && is_blank_char(s.get_char(b - 1))
        invariant
            n == s@.len(),
            a <= b <= n,
            forall|j: int| b <= j < n ==> is_blank(s@[j]),
        decreases b,
    {
        b = b - 1;
    }
    let r = s.substring_char(a, b).to_owned();
    proof {
        lemma_drop_leading_blanks_skip(s@, a as int);
        let t = s@.skip(a as int);
        if b == a {
            lemma_drop_trailing_blanks_take(t, 0);
        } else {
            assert(!is_blank(s@[b - 1]));
            assert(t[b - a - 1] == s@[b - 1]);
            lemma_drop_trailing_blanks_take(t, b - a);
        }
        assert(t.take(b - a) =~= s@.subrange(a as int, b as int));
        assert(r@ == trimmed(s@));
    }
    r
}

/// Removes one trailing carriage return from `line`, if there is one.
fn strip_cr_string(line: &str) -> (r: String)
    ensures
        r@ == strip_cr(line@),
{
    let n: usize = line.unicode_len();
    if n > 0 && line.get_char(n - 1) == '\r' {
        let r = line.substring_char(0, n - 1).to_owned();
        proof {
            assert(line@.subrange(0, n - 1) =~= line@.drop_last());
        }
        r
    } else {
        line.to_owned()
    }
}

/// Splits `s` into its lines, with the behaviour of `str::lines`: split at
/// `'\n'`, one trailing `'\r'` removed from each line, and no empty line
/// after a final newline.
pub fn split_lines(s: &str) -> (r: Vec<String>)
    ensures
        r.deep_view() == spec_lines(s@),
{
    let mut out: Vec<String> = Vec::new();
    let mut cur: String = String::new();
    let n: usize = s.unicode_len();
    let mut i: usize = 0;
    proof {
        assert(s@.skip(0) =~= s@);
        assert(out.deep_view() + lines_rec(s@.skip(0), cur@) =~= spec_lines(s@));
    }
    while i < n
        invariant
            n == s@.len(),
            i <= n,
            out.deep_view() + lines_rec(s@.skip(i as int), cur@) == spec_lines(s@),
        decreases n - i,
    {
        let ghost prev_out = out.deep_view();
        let ghost rem = s@.skip(i as int);
        let c = s.get_char(i);
        proof {
            assert(rem[0] == s@[i as int]);
            assert(rem.drop_first() =~= s@.skip(i + 1int));
        }
        if c == '\n' {
            let finished = strip_cr_string(cur.as_str());
            out.push(finished);
            cur = String::new();
            proof {
                assert(out.deep_view() =~= prev_out.push(finished@));
                assert(out.deep_view() + lines_rec(s@.skip(i + 1int), cur@) =~= spec_lines(s@));
            }
        } else {
            cur.push(c);
            proof {
                assert(out.deep_view() + lines_rec(s@.skip(i + 1int), cur@) =~= spec_lines(s@));
            }
        }
        i = i + 1;
    }
    proof {
        assert(s@.skip(n as int) =~= Seq::<char>::empty());
    }
    if !cur.as_str().is_empty() {
        let finished = strip_cr_string(cur.as_str());
        let ghost prev_out = out.deep_view();
        out.push(finished);
        proof {
            assert(out.deep_view() =~= prev_out.push(finished@));
            assert(out.deep_view() =~= spec_lines(s@));
        }
    } else {
        proof {
            assert(out.deep_view() + Seq::<Seq<char>>::empty() =~= out.deep_view());
            assert(out.deep_view() =~= spec_lines(s@));
        }
    }
    out
}

/// The whitespace-separated columns of the text `s + cur`, where `cur` is
/// the part of the current column read so far: maximal runs of non-blank
/// characters, in order.
pub open spec fn cols_rec(s: Seq<char>, cur: Seq<char>) -> Seq<Seq<char>>
    decreases s.len(),
{
    if s.len() == 0 {
        if cur.len() == 0 {
            Seq::empty()
        } else {
            seq![cur]
        }
    } else if is_blank(s[0]) {
        if cur.len() == 0 {
            cols_rec(s.drop_first(), Seq::empty())
        } else {
            seq![cur] + cols_rec(s.drop_first(), Seq::empty())
        }
    } else {
        cols_rec(s.drop_first(), cur.push(s[0]))
    }
}

/// The whitespace-separated columns of one line of output: maximal runs of
/// non-blank characters, in order, empty runs dropped.
pub open spec fn spec_columns(s: Seq<char>) -> Seq<Seq<char>> {
    cols_rec(s, Seq::empty())
}

/// Splits one line of output into its whitespace-separated columns.
pub fn split_columns(s: &str) -> (r: Vec<String>)
    ensures
        r.deep_view() == spec_columns(s@),
{
    let mut out: Vec<String> = Vec::new();
    let mut cur: String = String::new();
    let n: usize = s.unicode_len();
    let mut i: usize = 0;
    proof {
        assert(s@.skip(0) =~= s@);
        assert(out.deep_view() + cols_rec(s@.skip(0), cur@) =~= spec_columns(s@));
    }
    while i < n
        invariant
            n == s@.len(),
            i <= n,
            out.deep_view() + cols_rec(s@.skip(i as int), cur@) == spec_columns(s@),
        decreases n - i,
    {
        let ghost prev_out = out.deep_view();
        let ghost rem = s@.skip(i as int);
        let c = s.get_char(i);
        proof {
            assert(rem[0] == s@[i as int]);
            assert(rem.drop_first() =~= s@.skip(i + 1int));
        }
        if is_blank_char(c) {
            if !cur.as_str().is_empty() {
                let ghost cur_view = cur@;
                out.push(cur);
                cur = String::new();
                proof {
                    assert(out.deep_view() =~= prev_out.push(cur_view));
                    assert(cols_rec(rem, cur_view) == seq![cur_view] + cols_rec(
                        rem.drop_first(),
                        Seq::empty(),
                    ));
                    assert(prev_out.push(cur_view) + cols_rec(s@.skip(i + 1int), Seq::empty())
                        =~= prev_out + (seq![cur_view] + cols_rec(rem.drop_first(), Seq::empty())));
                }
            } else {
                proof {
                    assert(cur@.len() == 0);
                    assert(cur@ =~= Seq::<char>::empty());
                    assert(cols_rec(rem, cur@) == cols_rec(rem.drop_first(), Seq::<char>::empty()));
                }
            }
            proof {
                assert(out.deep_view() + cols_rec(s@.skip(i + 1int), cur@) =~= spec_columns(s@));
            }
        } else {
            cur.push(c);
            proof {
                assert(out.deep_view() + cols_rec(s@.skip(i + 1int), cur@) =~= spec_columns(s@));
            }
        }
        i = i + 1;
    }
    proof {
        assert(s@.skip(n as int) =~= Seq::<char>::empty());
    }
    if !cur.as_str().is_empty() {
        let ghost prev_out = out.deep_view();
        let ghost last = cur@;
        out.push(cur);
        proof {
            assert(out.deep_view() =~= prev_out.push(last));
            assert(out.deep_view() =~= spec_columns(s@));
        }
    } else {
        proof {
            assert(out.deep_view() + Seq::<Seq<char>>::empty() =~= out.deep_view());
            assert(out.deep_view() =~= spec_columns(s@));
        }
    }
    out
}

/// The content of a device listing: every line after the first `skip`
/// header lines, trimmed of surrounding blanks.
pub open spec fn spec_listed(s: Seq<char>, skip: int) -> Seq<Seq<char>> {
    let ls = spec_lines(s);
    if ls.len() <= skip {
        Seq::empty()
    } else {
        ls.skip(skip).map_values(|l: Seq<char>| trimmed(l))
    }
}

/// Reads the names out of a device listing: every line after the first
/// `skip` header lines, trimmed.
pub fn listed_names(stdout: &str, skip: usize) -> (r: Vec<String>)
    ensures
        r.deep_view() == spec_listed(stdout@, skip as int),
{
    let lines = split_lines(stdout);
    let mut out: Vec<String> = Vec::new();
    let ghost all = spec_lines(stdout@).skip(skip as int).map_values(|l: Seq<char>| trimmed(l));
    if lines.len() <= skip {
        proof {
            assert(out.deep_view() =~= spec_listed(stdout@, skip as int));
        }
        return out;
    }
    let mut i: usize = skip;
    proof {
        assert(out.deep_view() =~= all.take(0));
    }
    while i < lines.len()
        invariant
            lines.deep_view() == spec_lines(stdout@),
            skip <= i <= lines.len(),
            skip < lines.len(),
            all == spec_lines(stdout@).skip(skip as int).map_values(|l: Seq<char>| trimmed(l)),
            out.deep_view() == all.take(i - skip),
        decreases lines.len() - i,
    {
        let ghost prev_out = out.deep_view();
        let t = trim_blanks(lines[i].as_str());
        out.push(t);
        proof {
            assert(lines[i as int]@ == lines.deep_view()[i as int]);
            assert(all[i - skip] == trimmed(lines.deep_view()[i as int]));
            assert(out.deep_view() =~= prev_out.push(t@));
            assert(out.deep_view() =~= all.take(i + 1 - skip));
        }
        i = i + 1;
    }
    proof {
        assert(all.take(lines.len() - skip) =~= all);
        assert(out.deep_view() =~= spec_listed(stdout@, skip as int));
    }
    out
}

/// The first components of a sequence of pairs.
pub open spec fn firsts(ps: Seq<(Seq<char>, Seq<char>)>) -> Seq<Seq<char>> {
    ps.map_values(|p: (Seq<char>, Seq<char>)| p.0)
}

/// The mounted devices named by the given listing lines, given the device
/// names already seen: for each line with at least two columns whose first
/// column is new, the pair of its first two columns.
pub open spec fn mounted_rec(ls: Seq<Seq<char>>, seen: Seq<Seq<char>>) -> Seq<
    (Seq<char>, Seq<char>),
>
    decreases ls.len(),
{
    if ls.len() == 0 {
        Seq::empty()
    } else {
        let cols = spec_columns(ls[0]);
        if cols.len() > 1 && !seen.contains(cols[0]) {
            seq![(cols[0], cols[1])] + mounted_rec(ls.drop_first(), seen.push(cols[0]))
        } else {
            mounted_rec(ls.drop_first(), seen)
        }
    }
}

/// The device/mountpoint pairs of a mount listing: one header line, then one
/// line per device; a line without a mountpoint column and a line repeating
/// an already listed device name are skipped.
pub open spec fn spec_mounted(s: Seq<char>) -> Seq<(Seq<char>, Seq<char>)> {
    let ls = spec_lines(s);
    if ls.len() == 0 {
        Seq::empty()
    } else {
        mounted_rec(ls.drop_first(), Seq::empty())
    }
}

/// Whether any pair in `v` has `d` as its first component.
fn contains_first(v: &Vec<(String, String)>, d: &String) -> (r: bool)
    ensures
        r == firsts(v.deep_view()).contains(d@),
{
    let mut j: usize = 0;
    while j < v.len()
        invariant
            j <= v.len(),
            forall|k: int| 0 <= k < j ==> v.deep_view()[k].0 != d@,
        decreases v.len() - j,
    {
        if v[j].0 == *d {
            proof {
                assert(firsts(v.deep_view())[j as int] == d@);
            }
            return true;
        }
        j = j + 1;
    }
    proof {
        assert(forall|k: int|
            0 <= k < v.deep_view().len() ==> firsts(v.deep_view())[k] == v.deep_view()[k].0);
    }
    false
}

/// Reads the device/mountpoint pairs out of a mount listing, skipping the
/// header line, lines without a mountpoint column, and repeated device
/// names.
pub fn parse_mounted(stdout: &str) -> (r: Vec<(String, String)>)
    ensures
        r.deep_view() == spec_mounted(stdout@),
{
    let lines = split_lines(stdout);
    let mut out: Vec<(String, String)> = Vec::new();
    if lines.len() == 0 {
        proof {
            assert(out.deep_view() =~= spec_mounted(stdout@));
        }
        return out;
    }
    let ghost ls = spec_lines(stdout@);
    let mut i: usize = 1;
    proof {
        assert(ls.len() == lines@.len());
        assert(ls.skip(1) =~= ls.drop_first());
        assert(out.deep_view() =~= Seq::<(Seq<char>, Seq<char>)>::empty());
        assert(firsts(out.deep_view()) =~= Seq::<Seq<char>>::empty());
        assert(spec_mounted(stdout@) == mounted_rec(ls.drop_first(), Seq::empty()));
        assert(out.deep_view() + mounted_rec(ls.skip(1), firsts(out.deep_view())) =~= spec_mounted(
            stdout@,
        ));
    }
    while i < lines.len()
        invariant
            lines.deep_view() == ls,
            ls == spec_lines(stdout@),
            1 <= i <= lines.len(),
            out.deep_view() + mounted_rec(ls.skip(i as int), firsts(out.deep_view()))
                == spec_mounted(stdout@),
        decreases lines.len() - i,
    {
        let ghost prev_out = out.deep_view();
        let ghost rem = ls.skip(i as int);
        let cols = split_columns(lines[i].as_str());
        proof {
            assert(lines[i as int]@ == ls[i as int]);
            assert(rem[0] == ls[i as int]);
            assert(rem.drop_first() =~= ls.skip(i + 1int));
            assert(cols.deep_view().len() == cols@.len());
        }
        if cols.len() > 1 && !contains_first(&out, &cols[0]) {
            let c0 = cols[0].clone();
            let c1 = cols[1].clone();
            proof {
                assert(c0@ == cols.deep_view()[0]);
                assert(c1@ == cols.deep_view()[1]);
            }
            out.push((c0, c1));
            proof {
                let scols = spec_columns(ls[i as int]);
                assert(out.deep_view() =~= prev_out.push((scols[0], scols[1])));
                assert(firsts(out.deep_view()) =~= firsts(prev_out).push(scols[0]));
                assert(mounted_rec(rem, firsts(prev_out)) == seq![(scols[0], scols[1])]
                    + mounted_rec(rem.drop_first(), firsts(prev_out).push(scols[0])));
                assert(out.deep_view() + mounted_rec(ls.skip(i + 1int), firsts(out.deep_view()))
                    =~= prev_out + mounted_rec(rem, firsts(prev_out)));
            }
        } else {
            proof {
                let scols = spec_columns(ls[i as int]);
                if cols.len() > 1 {
                    assert(firsts(prev_out).contains(scols[0]));
                } else {
                    assert(scols.len() <= 1);
                }
                assert(mounted_rec(rem, firsts(prev_out)) == mounted_rec(
                    rem.drop_first(),
                    firsts(prev_out),
                ));
            }
        }
        i = i + 1;
    }
    proof {
        assert(ls.skip(lines.len() as int) =~= Seq::<Seq<char>>::empty());
        assert(out.deep_view() + Seq::<(Seq<char>, Seq<char>)>::empty() =~= out.deep_view());
    }
    out
}

/// The size column of a device-size listing: the second line, trimmed, if
/// there is one.
pub open spec fn spec_second_line(s: Seq<char>) -> Option<Seq<char>> {
    let ls = spec_lines(s);
    if ls.len() >= 2 {
        Some(trimmed(ls[1]))
    } else {
        None
    }
}

/// Reads the size out of a device-size listing: the second line, trimmed, or
/// `None` where the listing has no second line.
pub fn parse_second_line(stdout: &str) -> (r: Option<String>)
    ensures
        r.deep_view() == spec_second_line(stdout@),
{
    let lines = split_lines(stdout);
    if lines.len() >= 2 {
        let t = trim_blanks(lines[1].as_str());
        proof {
            assert(lines[1int]@ == lines.deep_view()[1]);
        }
        Some(t)
    } else {
        None
    }
}

/// Strict lexicographic order on character sequences, by code point: the
/// order in which `str` values sort.
pub open spec fn seq_str_lt(a: Seq<char>, b: Seq<char>) -> bool
    decreases a.len(),
{
    if b.len() == 0 {
        false
    } else if a.len() == 0 {
        true
    } else if a[0] != b[0] {
        (a[0] as int) < (b[0] as int)
    } else {
        seq_str_lt(a.drop_first(), b.drop_first())
    }
}

/// Any two names are ordered one way or the other, or are equal.
proof fn lemma_str_lt_trichotomy(a: Seq<char>, b: Seq<char>)
    ensures
        seq_str_lt(a, b) || seq_str_lt(b, a) || a == b,
    decreases a.len(),
{
    if b.len() == 0 {
        if a.len() == 0 {
            assert(a =~= b);
        }
    } else if a.len() == 0 {
    } else if a[0] != b[0] {
    } else {
        lemma_str_lt_trichotomy(a.drop_first(), b.drop_first());
        if a.drop_first() == b.drop_first() {
            assert(a.drop_first().len() == a.len() - 1);
            assert(b.drop_first().len() == b.len() - 1);
            assert(a.len() == b.len());
            assert forall|i: int| 0 <= i < a.len() implies a[i] == b[i] by {
                if i > 0 {
                    assert(a[i] == a.drop_first()[i - 1]);
                    assert(b[i] == b.drop_first()[i - 1]);
                }
            }
            assert(a =~= b);
        }
    }
}

/// The order on names is transitive.
proof fn lemma_str_lt_trans(a: Seq<char>, b: Seq<char>, c: Seq<char>)
    requires
        seq_str_lt(a, b),
        seq_str_lt(b, c),
    ensures
        seq_str_lt(a, c),
    decreases a.len(),
{
    if a.len() == 0 {
    } else {
        if a[0] != b[0] {
            if b[0] != c[0] {
            } else {
            }
        } else {
            if b[0] != c[0] {
            } else {
                lemma_str_lt_trans(a.drop_first(), b.drop_first(), c.drop_first());
            }
        }
    }
}

/// Compares two names in the order in which `str` values sort: strict
/// lexicographic order by code point.
pub fn str_lt(a: &str, b: &str) -> (r: bool)
    ensures
        r == seq_str_lt(a@, b@),
    decreases a@.len(),
{
    let bn: usize = b.unicode_len();
    if bn == 0 {
        return false;
    }
    let an: usize = a.unicode_len();
    if an == 0 {
        return true;
    }
    let ca = a.get_char(0);
    let cb = b.get_char(0);
    if ca != cb {
        (ca as u32) < (cb as u32)
    } else {
        let ta = a.substring_char(1, an);
        let tb = b.substring_char(1, bn);
        proof {
            assert(ta@ =~= a@.drop_first());
            assert(tb@ =~= b@.drop_first());
        }
        str_lt(ta, tb)
    }
}

/// A strictly sorted sequence of names: ordered by [`seq_str_lt`], hence
/// without repeats.
pub open spec fn sorted_unique(vs: Seq<Seq<char>>) -> bool {
    forall|i: int, j: int| 0 <= i < j < vs.len() ==> seq_str_lt(vs[i], vs[j])
}

/// Inserts a name into a strictly sorted list of names, keeping it sorted;
/// a name already present is not repeated.  The result holds exactly the old
/// names and the new one.
pub fn insert_sorted(v: &mut Vec<String>, x: String)
    requires
        sorted_unique(old(v).deep_view()),
    ensures
        sorted_unique(final(v).deep_view()),
        forall|y: Seq<char>|
            #[trigger] final(v).deep_view().contains(y) <==> (old(v).deep_view().contains(y) || y
                == x@),
{
    let ghost dv = v.deep_view();
    let mut k: usize = 0;
    while k < v.len() && str_lt(v[k].as_str(), x.as_str())
        invariant
            k <= v.len(),
            dv == v.deep_view(),
            forall|j: int| 0 <= j < k ==> seq_str_lt(dv[j], x@),
        decreases v.len() - k,
    {
        proof {
            assert(v[k as int]@ == dv[k as int]);
        }
        k = k + 1;
    }
    proof {
        assert(dv.len() == v@.len());
    }
    if k < v.len() && v[k] == x {
        proof {
            assert(v[k as int]@ == dv[k as int]);
            assert(dv.contains(dv[k as int]));
            assert(forall|y: Seq<char>|
                #[trigger] v.deep_view().contains(y) <==> (dv.contains(y) || y == x@));
        }
        return ;
    }
    proof {
        if k < dv.len() {
            assert(v[k as int]@ == dv[k as int]);
            assert(!seq_str_lt(dv[k as int], x@));
            assert(dv[k as int] != x@);
            lemma_str_lt_trichotomy(dv[k as int], x@);
            assert(seq_str_lt(x@, dv[k as int]));
        }
    }
    v.insert(k, x);
    proof {
        let nv = v.deep_view();
        assert(nv =~= dv.insert(k as int, x@));
        assert forall|i: int, j: int| 0 <= i < j < nv.len() implies seq_str_lt(nv[i], nv[j]) by {
            if j < k {
                assert(nv[i] == dv[i] && nv[j] == dv[j]);
            } else if i > k {
                assert(nv[i] == dv[i - 1] && nv[j] == dv[j - 1]);
            } else if i < k && j == k {
                assert(nv[i] == dv[i] && nv[j] == x@);
            } else if i == k && j > k {
                assert(nv[i] == x@ && nv[j] == dv[j - 1]);
                if j - 1 > k {
                    lemma_str_lt_trans(x@, dv[k as int], dv[j - 1]);
                }
            } else {
                assert(i < k && j > k);
                assert(nv[i] == dv[i] && nv[j] == dv[j - 1]);
                if j - 1 == k {
                    if i < k {
                        assert(seq_str_lt(dv[i], x@));
                        assert(seq_str_lt(x@, dv[k as int]));
                        lemma_str_lt_trans(dv[i], x@, dv[j - 1]);
                    }
                } else {
                    assert(seq_str_lt(dv[i], dv[j - 1]));
                }
            }
        }
        assert forall|y: Seq<char>| #[trigger] nv.contains(y) implies (dv.contains(y) || y == x@)
            by {
            let w = choose|w: int| 0 <= w < nv.len() && nv[w] == y;
            if w < k {
                assert(dv[w] == y);
            } else if w == k {
            } else {
                assert(dv[w - 1] == y);
            }
        }
        assert forall|y: Seq<char>| (dv.contains(y) || y == x@) implies #[trigger] nv.contains(y)
            by {
            if dv.contains(y) {
                let w = choose|w: int| 0 <= w < dv.len() && dv[w] == y;
                if w < k {
                    assert(nv[w] == y);
                } else {
                    assert(nv[w + 1] == y);
                }
            } else {
                assert(nv[k as int] == x@);
            }
        }
    }
}

/// Given a string, encode all single quotes so that the whole string can be
/// passed correctly as a single argument to a bash command.
///
/// This is useful for passing commands to `bash -c` (e.g. through ssh).
///
/// For example, to run the command
///
/// ```bash
/// echo '$HELLOWORLD="hello world"' | grep "hello"
/// ```
///
/// this function outputs `'echo '"'"'$HELLOWORLD="hello world"'"'"' | grep "hello"'`,
/// so the following command can be executed over ssh:
///
/// ```bash
/// bash -c 'echo '"'"'$HELLOWORLD="hello world"'"'"' | grep "hello"'
/// ```
pub fn escape_for_bash(s: &str) -> (r: String)
    ensures
        r@ == escaped(s@),
{
    let mut new: String = String::new();
    new.push('\'');
    proof {
        assert(new@ =~= seq!['\''] + escape_body(s@.take(0int)));
    }
    let n: usize = s.unicode_len();
    let mut i: usize = 0;
    while i < n
        invariant
            n == s@.len(),
            i <= n,
            new@ == seq!['\''] + escape_body(s@.take(i as int)),
        decreases n - i,
    {
        let c = s.get_char(i);
        if c == '\'' {
            new.push('\'');
            new.push('"');
            new.push('\'');
            new.push('"');
            new.push('\'');
        } else {
            new.push(c);
        }
        proof {
            lemma_escape_body_push(s@.take(i as int), c);
            assert(s@.take(i as int).push(c) =~= s@.take(i + 1int));
            assert(new@ =~= seq!['\''] + escape_body(s@.take(i + 1int)));
        }
        i = i + 1;
    }
    new.push('\'');
    proof {
        assert(s@.take(n as int) =~= s@);
        assert(new@ =~= escaped(s@));
    }
    new
}

/// The given names joined with single spaces, as the package-install
/// builders lay out their package lists.
pub open spec fn spec_join_spaces(vs: Seq<Seq<char>>) -> Seq<char>
    decreases vs.len(),
{
    if vs.len() == 0 {
        Seq::empty()
    } else if vs.len() == 1 {
        vs[0]
    } else {
        vs[0] + seq![' '] + spec_join_spaces(vs.drop_first())
    }
}

proof fn lemma_join_spaces_push(vs: Seq<Seq<char>>, x: Seq<char>)
    ensures
        vs.len() == 0 ==> spec_join_spaces(vs.push(x)) == x,
        vs.len() > 0 ==> spec_join_spaces(vs.push(x)) == spec_join_spaces(vs) + seq![' '] + x,
    decreases vs.len(),
{
    if vs.len() == 0 {
        assert(vs.push(x)[0] == x);
    } else {
        lemma_join_spaces_push(vs.drop_first(), x);
        assert(vs.push(x)[0] == vs[0]);
        assert(vs.push(x).drop_first() =~= vs.drop_first().push(x));
        if vs.len() == 1 {
            assert(vs.drop_first().len() == 0);
            assert(spec_join_spaces(vs.push(x)) == vs[0] + seq![' '] + x);
            assert(spec_join_spaces(vs) == vs[0]);
        } else {
            assert(spec_join_spaces(vs.push(x)) == vs[0] + seq![' '] + (spec_join_spaces(
                vs.drop_first(),
            ) + seq![' '] + x));
            assert(vs[0] + seq![' '] + (spec_join_spaces(vs.drop_first()) + seq![' '] + x) =~= (
            vs[0] + seq![' '] + spec_join_spaces(vs.drop_first())) + seq![' '] + x);
        }
    }
}

/// Joins the given names with single spaces.
pub fn join_spaces(parts: &[&str]) -> (r: String)
    ensures
        r@ == spec_join_spaces(parts.deep_view()),
{
    let mut out: String = String::new();
    let ghost vs = parts.deep_view();
    let mut i: usize = 0;
    proof {
        assert(vs.take(0) =~= Seq::<Seq<char>>::empty());
    }
    while i < parts.len()
        invariant
            i <= vs.len(),
            vs == parts.deep_view(),
            vs.len() == parts@.len(),
            out@ == spec_join_spaces(vs.take(i as int)),
        decreases vs.len() - i,
    {
        if i > 0 {
            out.push(' ');
        }
        let p: &str = parts[i];
        out.append(p);
        proof {
            assert(p@ == vs[i as int]);
            lemma_join_spaces_push(vs.take(i as int), vs[i as int]);
            assert(vs.take(i as int).push(vs[i as int]) =~= vs.take(i + 1int));
            if i > 0 {
                assert(out@ =~= spec_join_spaces(vs.take(i as int)) + seq![' '] + vs[i as int]);
            } else {
                assert(out@ =~= vs[0]);
            }
        }
        i = i + 1;
    }
    proof {
        assert(vs.take(vs.len() as int) =~= vs);
    }
    out
}

/// Sets the CPU scaling governor to the given governor.  This requires
/// - `cpupower` to be installed,
/// - `sudo` privileges,
/// - the necessary Linux kernel modules.
pub fn set_cpu_scaling_governor(gov: &str) -> (r: SshCommand)
    ensures
        r@ == fresh_command("sudo cpupower frequency-set -g "@ + gov@),
{
    let text = "sudo cpupower frequency-set -g ".to_owned().concat(gov);
    SshCommand::new(text.as_str())
}

/// Turn off the swap device.  Requires `sudo` permissions.
pub fn swapoff(device: &str) -> (r: SshCommand)
    ensures
        r@ == fresh_command("sudo swapoff "@ + device@),
{
    let text = "sudo swapoff ".to_owned().concat(device);
    SshCommand::new(text.as_str())
}

/// Turn on the swap device.  Requires `sudo` permissions.  Assumes the
/// device is already formatted as a swap device (i.e. with `mkswap`).
pub fn swapon(device: &str) -> (r: SshCommand)
    ensures
        r@ == fresh_command("sudo swapon "@ + device@),
{
    let text = "sudo swapon ".to_owned().concat(device);
    SshCommand::new(text.as_str())
}

/// Add the executing user to the given group.  Requires `sudo` permissions.
pub fn add_to_group(group: &str) -> (r: SshCommand)
    ensures
        r@ == with_use_bash(fresh_command("sudo usermod -aG "@ + group@ + " `whoami`"@)),
{
    let text = "sudo usermod -aG ".to_owned().concat(group).concat(" `whoami`");
    SshCommand::new(text.as_str()).use_bash()
}

/// Write a new general partition table (GPT) on the given device.  Requires
/// `sudo` permissions.
///
/// **NOTE**: this will destroy any data on the partition!
pub fn write_gpt(device: &str) -> (r: SshCommand)
    ensures
        r@ == fresh_command("sudo parted -a optimal "@ + device@ + " -s -- mklabel gpt"@),
{
    let text = "sudo parted -a optimal ".to_owned().concat(device).concat(" -s -- mklabel gpt");
    SshCommand::new(text.as_str())
}

/// Create a new partition on the given device.  Requires `sudo` permissions.
pub fn create_partition(device: &str) -> (r: SshCommand)
    ensures
        r@ == fresh_command(
            "sudo parted -a optimal "@ + device@ + " -s -- mkpart primary 0% 100%"@,
        ),
{
    let text = "sudo parted -a optimal ".to_owned().concat(device).concat(
        " -s -- mkpart primary 0% 100%",
    );
    SshCommand::new(text.as_str())
}

/// Whether `v` holds a string equal to `x`.
fn contains_str(v: &Vec<String>, x: &String) -> (r: bool)
    ensures
        r == v.deep_view().contains(x@),
{
    let mut j: usize = 0;
    while j < v.len()
        invariant
            j <= v.len(),
            forall|k: int| 0 <= k < j ==> v.deep_view()[k] != x@,
        decreases v.len() - j,
    {
        if v[j] == *x {
            proof {
                assert(v.deep_view()[j as int] == x@);
            }
            return true;
        }
        j = j + 1;
    }
    false
}

/// The command that lists one device's partitions.
pub open spec fn spec_partitions_cmd(device: Seq<char>, dry_run: bool) -> CommandModel {
    with_dry_run(fresh_command("lsblk -o KNAME "@ + device), dry_run)
}

/// The partition names a device listing stands for: every line after the
/// two-line header (the column name and the device's own name), trimmed.
pub open spec fn spec_partitions_of(out: SshOutput) -> Seq<Seq<char>> {
    spec_listed(out.stdout@, 2)
}

/// Returns the partitions of the given device.  For example,
/// `["sda1", "sda2"]`: the device listing names each partition exactly
/// once, and the list keeps the listing's order.  Exactly one command is
/// run; the result is every line of its reply after the two-line header
/// (the column name and the device's own name), trimmed; an error from
/// the shell is returned unchanged.
pub fn get_partitions<S: Execute>(shell: &mut S, device: &str, dry_run: bool) -> (r: Result<
    Vec<String>,
    SshError,
>)
    ensures
        forall|c: CommandModel| #[trigger] final(shell).reply(c) == old(shell).reply(c),
        final(shell).reconnect_reply() == old(shell).reconnect_reply(),
        final(shell).log() == old(shell).log().push(
            ShellEvent::Ran(spec_partitions_cmd(device@, dry_run)),
        ),
        old(shell).reply(spec_partitions_cmd(device@, dry_run)) matches Ok(out) ==> (r matches Ok(
            parts,
        ) && parts.deep_view() == spec_partitions_of(out)),
        old(shell).reply(spec_partitions_cmd(device@, dry_run)) matches Err(e) ==> (r matches Err(
            e2,
        ) && e2 == e),
{
    let text = "lsblk -o KNAME ".to_owned().concat(device);
    let cmd = SshCommand::new(text.as_str()).dry_run(dry_run);
    let out = match shell.run(cmd) {
        Ok(out) => out,
        Err(e) => {
            return Err(e);
        },
    };
    Ok(listed_names(out.stdout.as_str(), 2))
}

/// The command that lists all devices.
pub open spec fn spec_devices_cmd(dry_run: bool) -> CommandModel {
    with_dry_run(fresh_command("lsblk -o KNAME"@), dry_run)
}

/// Whether `names` is the sorted form of the names in `from`: strictly
/// ordered without repeats, and holding exactly the names occurring in
/// `from`.  At most one sequence is the sorted form of any `from`.
pub open spec fn sorted_form_of(names: Seq<Seq<char>>, from: Seq<Seq<char>>) -> bool {
    sorted_unique(names) && (forall|y: Seq<char>| #[trigger] names.contains(y) <==> from.contains(
        y,
    ))
}

/// The per-device partition queries for the given names, in order.
pub open spec fn spec_device_queries(names: Seq<Seq<char>>, dry_run: bool) -> Seq<CommandModel> {
    names.map_values(|d: Seq<char>| spec_partitions_cmd("/dev/"@ + d, dry_run))
}

/// The partitions that each queried device's reply stands for, on the
/// given shell; an empty list where the query fails.
pub open spec fn spec_queried_parts<S: Execute>(
    sh: S,
    names: Seq<Seq<char>>,
    dry_run: bool,
) -> Seq<Seq<Seq<char>>> {
    names.map_values(
        |d: Seq<char>|
            match sh.reply(spec_partitions_cmd("/dev/"@ + d, dry_run)) {
                Ok(out) => spec_partitions_of(out),
                Err(_) => Seq::empty(),
            },
    )
}

/// Whether the name `d` is dropped from the unpartitioned devices: some
/// queried device is partitioned, and either is `d` itself or lists `d`
/// among its partitions.
pub open spec fn spec_dropped(
    names: Seq<Seq<char>>,
    parts: Seq<Seq<Seq<char>>>,
    d: Seq<char>,
) -> bool {
    exists|k: int|
        0 <= k < names.len() && parts[k].len() > 0 && (names[k] == d || parts[k].contains(d))
}

/// The device names of a full listing, in sorted order without repeats.
#[verifier::loop_isolation(false)]
pub fn sorted_device_names(stdout: &str) -> (r: Vec<String>)
    ensures
        sorted_form_of(r.deep_view(), spec_listed(stdout@, 1)),
{
    let names = sorted_unique_of(listed_names(stdout, 1));
    names
}

/// The given names in sorted order, without repeats.
#[verifier::loop_isolation(false)]
pub fn sorted_unique_of(names: Vec<String>) -> (r: Vec<String>)
    ensures
        sorted_form_of(r.deep_view(), names.deep_view()),
{
    let ghost dv = names.deep_view();
    let mut out: Vec<String> = Vec::new();
    let mut i: usize = 0;
    while i < names.len()
        invariant
            i <= dv.len(),
            sorted_unique(out.deep_view()),
            forall|y: Seq<char>| #[trigger]
                out.deep_view().contains(y) <==> dv.take(i as int).contains(y),
        decreases names.len() - i,
    {
        proof {
            assert(names[i as int]@ == dv[i as int]);
            assert forall|y: Seq<char>| #[trigger]
                dv.take(i + 1int).contains(y) implies (dv.take(i as int).contains(y) || y == dv[i as int]) by {
                let w = choose|w: int|
                    0 <= w < dv.take(i + 1int).len() && #[trigger] dv.take(i + 1int)[w] == y;
                if w < i {
                    assert(dv.take(i as int)[w] == y);
                }
            }
            assert forall|y: Seq<char>|
                (dv.take(i as int).contains(y) || y == dv[i as int]) implies #[trigger] dv.take(
                i + 1int,
            ).contains(y) by {
                if dv.take(i as int).contains(y) {
                    let w = choose|w: int|
                        0 <= w < dv.take(i as int).len() && #[trigger] dv.take(i as int)[w] == y;
                    assert(dv.take(i + 1int)[w] == y);
                } else {
                    assert(dv.take(i + 1int)[i as int] == y);
                }
            }
        }
        insert_sorted(&mut out, names[i].clone());
        i = i + 1;
    }
    proof {
        assert(dv.take(dv.len() as int) =~= dv);
    }
    out
}

/// Returns the devices with no partitions.  For example, `["sda", "sdb"]`,
/// in sorted name order without repeats.  One full listing command is run;
/// then, for each device name its reply stands for, in sorted order, one
/// partition query; every partitioned device and all of its partitions are
/// then dropped from the names.  The first error from the shell is
/// returned unchanged, and no further commands are run after it.
#[verifier::loop_isolation(false)]
pub fn get_unpartitioned_devs<S: Execute>(shell: &mut S, dry_run: bool) -> (r: Result<
    Vec<String>,
    SshError,
>)
    ensures
        forall|c: CommandModel| #[trigger] final(shell).reply(c) == old(shell).reply(c),
        final(shell).reconnect_reply() == old(shell).reconnect_reply(),
        old(shell).reply(spec_devices_cmd(dry_run)) matches Err(e) ==> (r matches Err(e2) && e2
            == e && final(shell).log() == old(shell).log().push(
            ShellEvent::Ran(spec_devices_cmd(dry_run)),
        )),
        old(shell).reply(spec_devices_cmd(dry_run)) matches Ok(out) ==> (exists|
            names: Seq<Seq<char>>,
        |
            {
                &&& sorted_form_of(names, spec_listed(out.stdout@, 1))
                &&& (r matches Ok(v) ==> ({
                    &&& (forall|j: int|
                        0 <= j < names.len() ==> #[trigger] old(shell).reply(
                            spec_partitions_cmd("/dev/"@ + names[j], dry_run),
                        ) is Ok)
                    &&& final(shell).log() == old(shell).log().push(
                        ShellEvent::Ran(spec_devices_cmd(dry_run)),
                    ) + ran_events(spec_device_queries(names, dry_run))
                    &&& v.deep_view() == names.filter(
                        |d: Seq<char>|
                            !spec_dropped(
                                names,
                                spec_queried_parts(*old(shell), names, dry_run),
                                d,
                            ),
                    )
                }))
                &&& (r matches Err(e) ==> (exists|k: int|
                    {
                        &&& 0 <= k < names.len()
                        &&& (forall|j: int|
                            0 <= j < k ==> #[trigger] old(shell).reply(
                                spec_partitions_cmd("/dev/"@ + names[j], dry_run),
                            ) is Ok)
                        &&& ((#[trigger] old(shell).reply(
                            spec_partitions_cmd("/dev/"@ + names[k], dry_run),
                        )) matches Err(e2) && e2 == e)
                        &&& final(shell).log() == old(shell).log().push(
                            ShellEvent::Ran(spec_devices_cmd(dry_run)),
                        ) + ran_events(spec_device_queries(names.take(k + 1), dry_run))
                    }))
            }),
{
    let ghost orig: S = *shell;
    // List all devices, in sorted order without repeats.
    let cmd = SshCommand::new("lsblk -o KNAME").dry_run(dry_run);
    let out = match shell.run(cmd) {
        Ok(out) => out,
        Err(e) => {
            return Err(e);
        },
    };
    let devices = sorted_device_names(out.stdout.as_str());
    let ghost names = devices.deep_view();
    proof {
        assert(spec_device_queries(names.take(0), dry_run) =~= Seq::<CommandModel>::empty());
        assert(shell.log() + Seq::<ShellEvent>::empty() =~= shell.log());
    }
    // Ask for the partitions of each device, in order.
    let mut parts: Vec<Vec<String>> = Vec::new();
    let mut i: usize = 0;
    while i < devices.len()
        invariant
            names == devices.deep_view(),
            i <= names.len(),
            parts@.len() == i,
            shell.log() == orig.log().push(ShellEvent::Ran(spec_devices_cmd(dry_run)))
                + ran_events(spec_device_queries(names.take(i as int), dry_run)),
            forall|c: CommandModel| #[trigger] shell.reply(c) == orig.reply(c),
            shell.reconnect_reply() == orig.reconnect_reply(),
            forall|j: int|
                0 <= j < i ==> #[trigger] orig.reply(
                    spec_partitions_cmd("/dev/"@ + names[j], dry_run),
                ) is Ok,
            forall|j: int|
                0 <= j < i ==> parts.deep_view()[j] == spec_queried_parts(orig, names, dry_run)[j],
        decreases devices.len() - i,
    {
        let ghost prev_parts = parts.deep_view();
        let dev_path = "/dev/".to_owned().concat(devices[i].as_str());
        proof {
            assert(devices[i as int]@ == names[i as int]);
            assert(dev_path@ == "/dev/"@ + names[i as int]);
            assert(spec_device_queries(names.take(i + 1int), dry_run) =~= spec_device_queries(
                names.take(i as int),
                dry_run,
            ).push(spec_partitions_cmd("/dev/"@ + names[i as int], dry_run)));
            assert(ran_events(spec_device_queries(names.take(i + 1int), dry_run)) =~= ran_events(
                spec_device_queries(names.take(i as int), dry_run),
            ).push(ShellEvent::Ran(spec_partitions_cmd("/dev/"@ + names[i as int], dry_run))));
        }
        let ps = match get_partitions(shell, dev_path.as_str(), dry_run) {
            Ok(ps) => ps,
            Err(e) => {
                proof {
                    assert(shell.log() =~= orig.log().push(
                        ShellEvent::Ran(spec_devices_cmd(dry_run)),
                    ) + ran_events(spec_device_queries(names.take(i + 1int), dry_run)));
                }
                return Err(e);
            },
        };
        let ghost ps_view = ps.deep_view();
        parts.push(ps);
        proof {
            assert(shell.log() =~= orig.log().push(ShellEvent::Ran(spec_devices_cmd(dry_run)))
                + ran_events(spec_device_queries(names.take(i + 1int), dry_run)));
            assert(parts.deep_view() =~= prev_parts.push(ps_view));
            assert(parts.deep_view()[i as int] == spec_queried_parts(orig, names, dry_run)[
                i as int]);
        }
        i = i + 1;
    }
    proof {
        assert(names.take(names.len() as int) =~= names);
    }
    // Keep what is left: every name neither partitioned itself nor listed
    // among a partitioned device's partitions.
    let ghost all_parts = spec_queried_parts(orig, names, dry_run);
    proof {
        assert(all_parts.len() == names.len());
        assert(forall|j: int| 0 <= j < names.len() ==> parts.deep_view()[j] == all_parts[j]);
        assert(parts.deep_view() =~= all_parts);
    }
    let ghost keep = |d: Seq<char>| !spec_dropped(names, all_parts, d);
    let mut result: Vec<String> = Vec::new();
    let mut i: usize = 0;
    proof {
        reveal(Seq::filter);
        assert(names.take(0).filter(keep) =~= Seq::<Seq<char>>::empty());
    }
    while i < devices.len()
        invariant
            i <= names.len(),
            result.deep_view() == names.take(i as int).filter(keep),
        decreases devices.len() - i,
    {
        let ghost prev_result = result.deep_view();
        let mut dropped = false;
        let mut k: usize = 0;
        while k < devices.len()
            invariant
                k <= names.len(),
                !dropped ==> forall|j: int|
                    0 <= j < k ==> !(all_parts[j].len() > 0 && (names[j] == names[i as int]
                        || all_parts[j].contains(names[i as int]))),
                dropped ==> spec_dropped(names, all_parts, names[i as int]),
            decreases devices.len() - k,
        {
            if parts[k].len() > 0 && (devices[k] == devices[i] || contains_str(
                &parts[k],
                &devices[i],
            )) {
                proof {
                    assert(parts.deep_view()[k as int] == all_parts[k as int]);
                    assert(devices[k as int]@ == names[k as int]);
                    assert(all_parts[k as int].len() > 0);
                }
                dropped = true;
            }
            k = k + 1;
        }
        proof {
            reveal(Seq::filter);
            assert(dropped == spec_dropped(names, all_parts, names[i as int]));
            assert(names.take(i + 1int).drop_last() =~= names.take(i as int));
            assert(names.take(i + 1int).last() == names[i as int]);
            assert(names.take(i + 1int).len() == i + 1);
        }
        if !dropped {
            result.push(devices[i].clone());
            proof {
                reveal(Seq::filter);
                assert(keep(names[i as int]));
                assert(result.deep_view() =~= prev_result.push(names[i as int]));
                assert(names.take(i + 1int).filter(keep) == names.take(i as int).filter(
                    keep,
                ).push(names[i as int]));
            }
        } else {
            proof {
                reveal(Seq::filter);
                assert(!keep(names[i as int]));
                assert(names.take(i + 1int).filter(keep) == names.take(i as int).filter(keep));
            }
        }
        i = i + 1;
    }
    proof {
        assert(names.take(names.len() as int) =~= names);
    }
    Ok(result)
}


/// The command that lists every device together with its mountpoint.
pub open spec fn spec_mounted_cmd(dry_run: bool) -> CommandModel {
    with_dry_run(fresh_command("lsblk -o KNAME,MOUNTPOINT"@), dry_run)
}

/// Returns the list of devices mounted and their mountpoints.  For example,
/// `[("sda2", "/")]`.  Exactly one listing command is run; the result is
/// the parse of its reply, in listing order, with devices lacking a
/// mountpoint column and repeated device names skipped, and an error from
/// the shell is returned unchanged.
pub fn get_mounted_devs<S: Execute>(shell: &mut S, dry_run: bool) -> (r: Result<
    Vec<(String, String)>,
    SshError,
>)
    ensures
        forall|c: CommandModel| #[trigger] final(shell).reply(c) == old(shell).reply(c),
        final(shell).reconnect_reply() == old(shell).reconnect_reply(),
        final(shell).log() == old(shell).log().push(ShellEvent::Ran(spec_mounted_cmd(dry_run))),
        old(shell).reply(spec_mounted_cmd(dry_run)) matches Ok(out) ==> (r matches Ok(mounted)
            && mounted.deep_view() == spec_mounted(out.stdout@)),
        old(shell).reply(spec_mounted_cmd(dry_run)) matches Err(e) ==> (r matches Err(e2) && e2
            == e),
{
    let cmd = SshCommand::new("lsblk -o KNAME,MOUNTPOINT").dry_run(dry_run);
    let out = match shell.run(cmd) {
        Ok(out) => out,
        Err(e) => {
            return Err(e);
        },
    };
    Ok(parse_mounted(out.stdout.as_str()))
}

/// The command that asks for one device's human-readable size.
pub open spec fn spec_size_cmd(dev: Seq<char>, dry_run: bool) -> CommandModel {
    with_dry_run(fresh_command("lsblk -o SIZE /dev/"@ + dev), dry_run)
}

/// The size commands for the given devices, in order.
pub open spec fn spec_size_cmds(devs: Seq<Seq<char>>, dry_run: bool) -> Seq<CommandModel> {
    devs.map_values(|d: Seq<char>| spec_size_cmd(d, dry_run))
}

/// The size a size listing stands for: its second line, trimmed, or an
/// empty string where the listing has no second line.
pub open spec fn spec_size_of(out: SshOutput) -> Seq<char> {
    match spec_second_line(out.stdout@) {
        Some(t) => t,
        None => Seq::empty(),
    }
}

/// Returns the human-readable sizes of the devices `devs`, one entry per
/// device.  For example, `["477G", "500M"]`.  One size command is run per
/// device, in input order; each entry is the size its reply stands for (an
/// empty string where the listing has no size line); the first error from
/// the shell is returned unchanged, and no further commands are run.
#[verifier::loop_isolation(false)]
pub fn get_dev_sizes<S: Execute>(shell: &mut S, devs: Vec<&str>, dry_run: bool) -> (r: Result<
    Vec<String>,
    SshError,
>)
    ensures
        forall|c: CommandModel| #[trigger] final(shell).reply(c) == old(shell).reply(c),
        final(shell).reconnect_reply() == old(shell).reconnect_reply(),
        r matches Ok(sizes) ==> ({
            &&& sizes@.len() == devs@.len()
            &&& final(shell).log() == old(shell).log() + ran_events(
                spec_size_cmds(devs.deep_view(), dry_run),
            )
            &&& forall|j: int|
                0 <= j < devs@.len() ==> old(shell).reply(
                    spec_size_cmd(devs.deep_view()[j], dry_run),
                ) is Ok
            &&& forall|j: int|
                0 <= j < devs@.len() ==> ((#[trigger] old(shell).reply(
                    spec_size_cmd(devs.deep_view()[j], dry_run),
                )) matches Ok(out) ==> sizes.deep_view()[j] == spec_size_of(out))
        }),
        r matches Err(e) ==> (exists|k: int|
            {
                &&& 0 <= k < devs@.len()
                &&& (forall|j: int|
                    0 <= j < k ==> old(shell).reply(
                        spec_size_cmd(devs.deep_view()[j], dry_run),
                    ) is Ok)
                &&& ((#[trigger] old(shell).reply(
                    spec_size_cmd(devs.deep_view()[k], dry_run),
                )) matches Err(e2) && e2 == e)
                &&& final(shell).log() == old(shell).log() + ran_events(
                    spec_size_cmds(devs.deep_view().take(k + 1), dry_run),
                )
            }),
{
    let ghost orig: S = *shell;
    let ghost dv = devs.deep_view();
    let mut sizes: Vec<String> = Vec::new();
    let mut i: usize = 0;
    proof {
        assert(dv.take(0) =~= Seq::<Seq<char>>::empty());
        assert(shell.log() + ran_events(spec_size_cmds(dv.take(0), dry_run)) =~= shell.log());
    }
    while i < devs.len()
        invariant
            i <= dv.len(),
            sizes@.len() == i,
            shell.log() == orig.log() + ran_events(spec_size_cmds(dv.take(i as int), dry_run)),
            forall|c: CommandModel| #[trigger] shell.reply(c) == orig.reply(c),
            shell.reconnect_reply() == orig.reconnect_reply(),
            forall|j: int| 0 <= j < i ==> orig.reply(spec_size_cmd(dv[j], dry_run)) is Ok,
            forall|j: int|
                0 <= j < i ==> ((#[trigger] orig.reply(spec_size_cmd(dv[j], dry_run))) matches Ok(
                out) ==> sizes.deep_view()[j] == spec_size_of(out)),
        decreases devs.len() - i,
    {
        let ghost prev_sizes = sizes.deep_view();
        let text = "lsblk -o SIZE /dev/".to_owned().concat(devs[i]);
        let cmd = SshCommand::new(text.as_str()).dry_run(dry_run);
        proof {
            assert(devs[i as int]@ == dv[i as int]);
            assert(cmd@ == spec_size_cmd(dv[i as int], dry_run));
            assert(spec_size_cmds(dv.take(i + 1int), dry_run) =~= spec_size_cmds(
                dv.take(i as int),
                dry_run,
            ).push(spec_size_cmd(dv[i as int], dry_run)));
            assert(ran_events(spec_size_cmds(dv.take(i + 1int), dry_run)) =~= ran_events(
                spec_size_cmds(dv.take(i as int), dry_run),
            ).push(ShellEvent::Ran(spec_size_cmd(dv[i as int], dry_run))));
        }
        let out = match shell.run(cmd) {
            Ok(out) => out,
            Err(e) => {
                proof {
                    assert(shell.log() =~= orig.log() + ran_events(
                        spec_size_cmds(dv.take(i + 1int), dry_run),
                    ));
                }
                return Err(e);
            },
        };
        let entry = match parse_second_line(out.stdout.as_str()) {
            Some(size) => size,
            None => String::new(),
        };
        let ghost entry_view = entry@;
        sizes.push(entry);
        proof {
            assert(shell.log() =~= orig.log() + ran_events(
                spec_size_cmds(dv.take(i + 1int), dry_run),
            ));
            assert(entry_view == spec_size_of(out));
            assert(sizes.deep_view() =~= prev_sizes.push(entry_view));
        }
        i = i + 1;
    }
    proof {
        assert(dv.take(dv.len() as int) =~= dv);
    }
    Ok(sizes)
}

/// The reboot command.
pub open spec fn spec_reboot_cmd(dry_run: bool) -> CommandModel {
    with_dry_run(fresh_command("sudo reboot"@), dry_run)
}

/// The identity check run to verify that a machine is back.
pub open spec fn spec_whoami_cmd(dry_run: bool) -> CommandModel {
    with_dry_run(fresh_command("whoami"@), dry_run)
}

/// Reboot and wait for the remote machine to come back up again.  Requires
/// `sudo`.  Exactly two commands are run, `sudo reboot` then `whoami`,
/// with one reconnection between them unless this is a dry run.  The
/// reboot command's own failure is disregarded — the remote side dying
/// mid-command is the expected outcome — so the result is an error only
/// when the reconnection or the final identity check fails, and that error
/// is returned unchanged.  The shell's `reconnect` is responsible for
/// waiting until the machine accepts connections again.
pub fn reboot<S: Execute>(shell: &mut S, dry_run: bool) -> (r: Result<(), SshError>)
    ensures
        forall|c: CommandModel| #[trigger] final(shell).reply(c) == old(shell).reply(c),
        final(shell).reconnect_reply() == old(shell).reconnect_reply(),
        dry_run ==> ({
            &&& final(shell).log() == old(shell).log() + ran_events(
                seq![spec_reboot_cmd(true), spec_whoami_cmd(true)],
            )
            &&& (old(shell).reply(spec_whoami_cmd(true)) is Ok ==> r is Ok)
            &&& (old(shell).reply(spec_whoami_cmd(true)) matches Err(e) ==> (r matches Err(e2)
                && e2 == e))
        }),
        !dry_run ==> ({
            &&& (old(shell).reconnect_reply() matches Err(e) ==> (r matches Err(e2) && e2 == e
                && final(shell).log() == old(shell).log() + seq![
                    ShellEvent::Ran(spec_reboot_cmd(false)),
                    ShellEvent::Reconnected,
                ]))
            &&& (old(shell).reconnect_reply() is Ok ==> ({
                &&& final(shell).log() == old(shell).log() + seq![
                    ShellEvent::Ran(spec_reboot_cmd(false)),
                    ShellEvent::Reconnected,
                    ShellEvent::Ran(spec_whoami_cmd(false)),
                ]
                &&& (old(shell).reply(spec_whoami_cmd(false)) is Ok ==> r is Ok)
                &&& (old(shell).reply(spec_whoami_cmd(false)) matches Err(e) ==> (r matches Err(
                    e2,
                ) && e2 == e))
            }))
        }),
{
    let ghost orig: S = *shell;
    let _ = shell.run(SshCommand::new("sudo reboot").dry_run(dry_run));
    if !dry_run {
        // Attempt to reconnect; the machine will take a while to go down
        // and come back up.
        match shell.reconnect() {
            Ok(()) => {},
            Err(e) => {
                proof {
                    assert(shell.log() =~= orig.log() + seq![
                        ShellEvent::Ran(spec_reboot_cmd(false)),
                        ShellEvent::Reconnected,
                    ]);
                }
                return Err(e);
            },
        }
    }
    // Make sure it worked.
    let r = match shell.run(SshCommand::new("whoami").dry_run(dry_run)) {
        Ok(_) => Ok(()),
        Err(e) => Err(e),
    };
    proof {
        if dry_run {
            assert(shell.log() =~= orig.log() + ran_events(
                seq![spec_reboot_cmd(true), spec_whoami_cmd(true)],
            ));
        } else {
            assert(shell.log() =~= orig.log() + seq![
                ShellEvent::Ran(spec_reboot_cmd(false)),
                ShellEvent::Reconnected,
                ShellEvent::Ran(spec_whoami_cmd(false)),
            ]);
        }
    }
    r
}

/// The command that looks up the filesystem UUID of a partition.
pub open spec fn spec_blkid_cmd(partition: Seq<char>, dry_run: bool) -> CommandModel {
    with_dry_run(
        with_use_bash(fresh_command("sudo blkid -o export "@ + partition + " | grep '^UUID='"@)),
        dry_run,
    )
}

/// The command that appends the line
/// `<uuid>    <mount>    ext4    defaults    0    1` (fields joined by
/// four spaces) to the system mount table.
pub open spec fn spec_fstab_cmd(uuid: Seq<char>, mount: Seq<char>) -> CommandModel {
    fresh_command(
        "echo \""@ + uuid + "    "@ + mount + "    ext4    defaults    0    1\" | sudo tee -a /etc/fstab"@,
    )
}

/// Builds the command that appends the mount-table line for the given
/// filesystem UUID and mountpoint: the line `<uuid>    <mount>    ext4    defaults    0    1`,
/// its fields joined by four spaces, written through `sudo tee -a`.
pub fn fstab_append_command(uuid: &str, mount: &str) -> (r: SshCommand)
    ensures
        r@ == spec_fstab_cmd(uuid@, mount@),
{
    let text = "echo \"".to_owned().concat(uuid).concat("    ").concat(mount).concat(
        "    ext4    defaults    0    1\" | sudo tee -a /etc/fstab",
    );
    SshCommand::new(text.as_str())
}

/// The UUID the format-and-mount helper reads back on the given shell: the
/// UUID lookup's standard output, trimmed; empty where that command fails.
pub open spec fn spec_uuid_of<S: Execute>(sh: S, partition: Seq<char>, dry_run: bool) -> Seq<
    char,
> {
    match sh.reply(spec_blkid_cmd(partition, dry_run)) {
        Ok(out) => trimmed(out.stdout@),
        Err(_) => Seq::empty(),
    }
}

/// The commands the format-and-mount helper runs, in order, given the UUID
/// it reads back: list the devices, make the filesystem, mount it at a
/// temporary point and copy the mountpoint's contents over, remount it at
/// the real target, look up its UUID, append the mount-table line, and
/// list the devices again.
pub open spec fn spec_format_cmds(
    partition: Seq<char>,
    mount: Seq<char>,
    owner: Seq<char>,
    dry_run: bool,
    uuid: Seq<char>,
) -> Seq<CommandModel> {
    seq![
        with_dry_run(fresh_command("lsblk"@), dry_run),
        with_dry_run(fresh_command("sudo mkfs.ext4 "@ + partition), dry_run),
        with_dry_run(fresh_command("mkdir -p /tmp/tmp_mnt"@), dry_run),
        with_dry_run(fresh_command("sudo mount -t ext4 "@ + partition + " /tmp/tmp_mnt"@), dry_run),
        with_dry_run(fresh_command("sudo chown "@ + owner + " /tmp/tmp_mnt"@), dry_run),
        with_dry_run(fresh_command("rsync -a "@ + mount + "/ /tmp/tmp_mnt/"@), dry_run),
        with_dry_run(fresh_command("sync"@), dry_run),
        with_dry_run(fresh_command("sudo umount /tmp/tmp_mnt"@), dry_run),
        with_dry_run(fresh_command("sudo mount -t ext4 "@ + partition + " "@ + mount), dry_run),
        with_dry_run(fresh_command("sudo chown "@ + owner + " "@ + mount), dry_run),
        spec_blkid_cmd(partition, dry_run),
        with_dry_run(spec_fstab_cmd(uuid, mount), dry_run),
        with_dry_run(fresh_command("lsblk"@), dry_run),
    ]
}

/// Formats and mounts the given device as ext4 at the given mountpoint
/// owned by the given user.  The given partition and mountpoint are assumed
/// to be valid (we don't check).  We will assume quite a few things for
/// simplicity:
/// - the disk _IS_ partitioned, but the partition is not formatted
/// - the disk should be mounted at the mountpoint, which is a valid directory
/// - you have `sudo` permissions
/// - `owner` is a valid username
///
/// We need to be careful not to mess up the ssh keys, so we will first
/// mount the new FS somewhere, copy over dotfiles, then unmount and mount
/// to users...
///
/// In particular, this is useful for mounting a new partition as a home
/// directory.
///
/// The commands of [`spec_format_cmds`] are run in order, the UUID in the
/// appended mount-table line being the UUID lookup's output trimmed; the
/// first error from the shell is returned unchanged, and no further
/// commands are run after it.
///
/// # Warning!
///
/// This can cause data loss and seriously mess up your system.  **BE VERY
/// CAREFUL**.  Make sure you are formatting the right partition.
pub fn format_partition_as_ext4<S: Execute>(
    shell: &mut S,
    dry_run: bool,
    partition: &str,
    mount: &str,
    owner: &str,
) -> (r: Result<(), SshError>)
    ensures
        forall|c: CommandModel| #[trigger] final(shell).reply(c) == old(shell).reply(c),
        final(shell).reconnect_reply() == old(shell).reconnect_reply(),
        ({
            let plan = spec_format_cmds(
                partition@,
                mount@,
                owner@,
                dry_run,
                spec_uuid_of(*old(shell), partition@, dry_run),
            );
            &&& (r matches Ok(()) ==> ({
                &&& (forall|j: int|
                    0 <= j < plan.len() ==> #[trigger] old(shell).reply(plan[j]) is Ok)
                &&& final(shell).log() == old(shell).log() + ran_events(plan)
            }))
            &&& (r matches Err(e) ==> (exists|k: int|
                {
                    &&& 0 <= k < plan.len()
                    &&& (forall|j: int| 0 <= j < k ==> #[trigger] old(shell).reply(plan[j]) is Ok)
                    &&& ((#[trigger] old(shell).reply(plan[k])) matches Err(e2) && e2 == e)
                    &&& final(shell).log() == old(shell).log() + ran_events(plan.take(k + 1))
                }))
        }),
{
    let ghost orig: S = *shell;
    let ghost plan = spec_format_cmds(
        partition@,
        mount@,
        owner@,
        dry_run,
        spec_uuid_of(orig, partition@, dry_run),
    );
    let cmd0 = SshCommand::new("lsblk").dry_run(dry_run);
    proof {
        assert(cmd0@ == plan[0]);
        assert(orig.log() + ran_events(plan.take(1)) =~= orig.log().push(
            ShellEvent::Ran(plan[0]),
        ));
    }
    match shell.run(cmd0) {
        Ok(_) => {},
        Err(e) => {
            return Err(e);
        },
    }
    // Make a filesystem on the first partition.
    let text = "sudo mkfs.ext4 ".to_owned().concat(partition);
    let cmd1 = SshCommand::new(text.as_str()).dry_run(dry_run);
    proof {
        assert(cmd1@ == plan[1]);
        assert(orig.log() + ran_events(plan.take(2)) =~= (orig.log() + ran_events(
            plan.take(1),
        )).push(ShellEvent::Ran(plan[1])));
    }
    match shell.run(cmd1) {
        Ok(_) => {},
        Err(e) => {
            return Err(e);
        },
    }
    // Mount the FS in tmp.
    let cmd2 = SshCommand::new("mkdir -p /tmp/tmp_mnt").dry_run(dry_run);
    proof {
        assert(cmd2@ == plan[2]);
        assert(orig.log() + ran_events(plan.take(3)) =~= (orig.log() + ran_events(
            plan.take(2),
        )).push(ShellEvent::Ran(plan[2])));
    }
    match shell.run(cmd2) {
        Ok(_) => {},
        Err(e) => {
            return Err(e);
        },
    }
    let text = "sudo mount -t ext4 ".to_owned().concat(partition).concat(" /tmp/tmp_mnt");
    let cmd3 = SshCommand::new(text.as_str()).dry_run(dry_run);
    proof {
        assert(cmd3@ == plan[3]);
        assert(orig.log() + ran_events(plan.take(4)) =~= (orig.log() + ran_events(
            plan.take(3),
        )).push(ShellEvent::Ran(plan[3])));
    }
    match shell.run(cmd3) {
        Ok(_) => {},
        Err(e) => {
            return Err(e);
        },
    }
    let text = "sudo chown ".to_owned().concat(owner).concat(" /tmp/tmp_mnt");
    let cmd4 = SshCommand::new(text.as_str()).dry_run(dry_run);
    proof {
        assert(cmd4@ == plan[4]);
        assert(orig.log() + ran_events(plan.take(5)) =~= (orig.log() + ran_events(
            plan.take(4),
        )).push(ShellEvent::Ran(plan[4])));
    }
    match shell.run(cmd4) {
        Ok(_) => {},
        Err(e) => {
            return Err(e);
        },
    }
    // Copy all existing files.
    let text = "rsync -a ".to_owned().concat(mount).concat("/ /tmp/tmp_mnt/");
    let cmd5 = SshCommand::new(text.as_str()).dry_run(dry_run);
    proof {
        assert(cmd5@ == plan[5]);
        assert(orig.log() + ran_events(plan.take(6)) =~= (orig.log() + ran_events(
            plan.take(5),
        )).push(ShellEvent::Ran(plan[5])));
    }
    match shell.run(cmd5) {
        Ok(_) => {},
        Err(e) => {
            return Err(e);
        },
    }
    // Unmount from tmp.
    let cmd6 = SshCommand::new("sync").dry_run(dry_run);
    proof {
        assert(cmd6@ == plan[6]);
        assert(orig.log() + ran_events(plan.take(7)) =~= (orig.log() + ran_events(
            plan.take(6),
        )).push(ShellEvent::Ran(plan[6])));
    }
    match shell.run(cmd6) {
        Ok(_) => {},
        Err(e) => {
            return Err(e);
        },
    }
    let cmd7 = SshCommand::new("sudo umount /tmp/tmp_mnt").dry_run(dry_run);
    proof {
        assert(cmd7@ == plan[7]);
        assert(orig.log() + ran_events(plan.take(8)) =~= (orig.log() + ran_events(
            plan.take(7),
        )).push(ShellEvent::Ran(plan[7])));
    }
    match shell.run(cmd7) {
        Ok(_) => {},
        Err(e) => {
            return Err(e);
        },
    }
    // Mount the FS at `mount`.
    let text = "sudo mount -t ext4 ".to_owned().concat(partition).concat(" ").concat(mount);
    let cmd8 = SshCommand::new(text.as_str()).dry_run(dry_run);
    proof {
        assert(cmd8@ == plan[8]);
        assert(orig.log() + ran_events(plan.take(9)) =~= (orig.log() + ran_events(
            plan.take(8),
        )).push(ShellEvent::Ran(plan[8])));
    }
    match shell.run(cmd8) {
        Ok(_) => {},
        Err(e) => {
            return Err(e);
        },
    }
    let text = "sudo chown ".to_owned().concat(owner).concat(" ").concat(mount);
    let cmd9 = SshCommand::new(text.as_str()).dry_run(dry_run);
    proof {
        assert(cmd9@ == plan[9]);
        assert(orig.log() + ran_events(plan.take(10)) =~= (orig.log() + ran_events(
            plan.take(9),
        )).push(ShellEvent::Ran(plan[9])));
    }
    match shell.run(cmd9) {
        Ok(_) => {},
        Err(e) => {
            return Err(e);
        },
    }
    // Look up the filesystem UUID, for the mount-table line.
    let text = "sudo blkid -o export ".to_owned().concat(partition).concat(" | grep '^UUID='");
    let cmd10 = SshCommand::new(text.as_str()).use_bash().dry_run(dry_run);
    proof {
        assert(cmd10@ == plan[10]);
        assert(orig.log() + ran_events(plan.take(11)) =~= (orig.log() + ran_events(
            plan.take(10),
        )).push(ShellEvent::Ran(plan[10])));
    }
    let uuid_out = match shell.run(cmd10) {
        Ok(out) => out,
        Err(e) => {
            return Err(e);
        },
    };
    // Add to /etc/fstab.
    let uuid = trim_blanks(uuid_out.stdout.as_str());
    proof {
        assert(uuid@ == spec_uuid_of(orig, partition@, dry_run));
    }
    let cmd11 = fstab_append_command(uuid.as_str(), mount).dry_run(dry_run);
    proof {
        assert(cmd11@ == plan[11]);
        assert(orig.log() + ran_events(plan.take(12)) =~= (orig.log() + ran_events(
            plan.take(11),
        )).push(ShellEvent::Ran(plan[11])));
    }
    match shell.run(cmd11) {
        Ok(_) => {},
        Err(e) => {
            return Err(e);
        },
    }
    // Print for info.
    let cmd12 = SshCommand::new("lsblk").dry_run(dry_run);
    proof {
        assert(cmd12@ == plan[12]);
        assert(orig.log() + ran_events(plan.take(13)) =~= (orig.log() + ran_events(
            plan.take(12),
        )).push(ShellEvent::Ran(plan[12])));
    }
    match shell.run(cmd12) {
        Ok(_) => {},
        Err(e) => {
            return Err(e);
        },
    }
    proof {
        assert(plan.take(13) =~= plan);
    }
    Ok(())
}

} // verus!
