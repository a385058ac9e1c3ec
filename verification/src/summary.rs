//! One-line summaries of PDF values, as shown in metadata, reports and
//! object views.
use vstd::prelude::*;
use crate::pdf_model::{ObjectRef, PdfValue, ValueView};
use crate::pdf_string::{decode_pdf_hex_string, decoded_view, spec_decode_pdf_hex_string};
use crate::text::{decimal, owned, push_char, push_decimal, push_str};

verus! {

broadcast use crate::value_views::group_views;

/// `value` cut to at most `max_len` characters: when longer, its first
/// `max_len - 1` characters and an ellipsis.
pub open spec fn truncate_text(value: Seq<char>, max_len: nat) -> Seq<char> {
    if value.len() <= max_len {
        value
    } else {
        value.take(if max_len >= 1 { max_len - 1 } else { 0 }).push('…')
    }
}

/// Cuts text to at most `max_len` characters, marking a cut with `…`.
pub fn truncate(value: &str, max_len: usize) -> (r: String)
    ensures
        r@ == truncate_text(value@, max_len as nat),
{
    broadcast use vstd::string::group_string_axioms;
    let n = value.unicode_len();
    if n <= max_len {
        return owned(value);
    }
    let keep: usize = if max_len >= 1 { max_len - 1 } else { 0 };
    let mut out = String::new();
    let mut i: usize = 0;
    for c in it: value.chars()
        invariant
            it.seq() == value@,
            keep < value@.len(),
            i <= keep,
            i == if it.index() < keep { it.index() } else { keep as int },
            out@ == value@.take(i as int),
    {
        if i < keep {
            push_char(&mut out, c);
            assert(value@.take(i + 1) =~= value@.take(i as int).push(c));
            i = i + 1;
        }
    }
    push_char(&mut out, '…');
    out
}

/// The characters before the first `c`, counted; the length when there is none.
pub open spec fn char_index(s: Seq<char>, c: char) -> int
    decreases s.len(),
{
    if s.len() == 0 || s[0] == c { 0 } else { 1 + char_index(s.drop_first(), c) }
}

pub open spec fn strip_leading_zeros(d: Seq<char>) -> Seq<char>
    decreases d.len(),
{
    if d.len() > 0 && d[0] == '0' { strip_leading_zeros(d.drop_first()) } else { d }
}

pub open spec fn strip_trailing_zeros(d: Seq<char>) -> Seq<char>
    decreases d.len(),
{
    if d.len() > 0 && d.last() == '0' { strip_trailing_zeros(d.drop_last()) } else { d }
}

/// A number written as a decimal without redundant parts: no `+`, no
/// leading zeros in the integer part, no trailing zeros in the fraction, no
/// fraction when it is zero, and no sign on zero.
pub open spec fn number_summary(t: Seq<char>) -> Seq<char> {
    let neg = t.len() > 0 && t[0] == '-';
    let body = if t.len() > 0 && (t[0] == '-' || t[0] == '+') { t.drop_first() } else { t };
    let dot = char_index(body, '.');
    let ip = strip_leading_zeros(body.take(dot));
    let frac = strip_trailing_zeros(if dot < body.len() { body.skip(dot + 1) } else { seq![] });
    let zero = ip.len() == 0 && frac.len() == 0;
    (if neg && !zero { seq!['-'] } else { seq![] }) + (if ip.len() == 0 { seq!['0'] } else { ip })
        + (if frac.len() > 0 { seq!['.'] + frac } else { seq![] })
}

proof fn lemma_char_index(s: Seq<char>, c: char, k: int)
    requires
        0 <= k <= s.len(),
        forall|j: int| 0 <= j < k ==> s[j] != c,
        k == s.len() || s[k] == c,
    ensures
        char_index(s, c) == k,
    decreases k,
{
    if k > 0 {
        lemma_char_index(s.drop_first(), c, k - 1);
    }
}

proof fn lemma_strip_leading(d: Seq<char>, k: int)
    requires
        0 <= k <= d.len(),
        forall|j: int| 0 <= j < k ==> d[j] == '0',
        k == d.len() || d[k] != '0',
    ensures
        strip_leading_zeros(d) == d.skip(k),
    decreases k,
{
    if k > 0 {
        lemma_strip_leading(d.drop_first(), k - 1);
        assert(d.drop_first().skip(k - 1) =~= d.skip(k));
    } else {
        assert(d.skip(0) =~= d);
    }
}

proof fn lemma_strip_trailing(d: Seq<char>, k: int)
    requires
        0 <= k <= d.len(),
        forall|j: int| k <= j < d.len() ==> d[j] == '0',
        k == 0 || d[k - 1] != '0',
    ensures
        strip_trailing_zeros(d) == d.take(k),
    decreases d.len() - k,
{
    if k < d.len() {
        lemma_strip_trailing(d.drop_last(), k);
        assert(d.drop_last().take(k) =~= d.take(k));
    } else {
        assert(d.take(k) =~= d);
    }
}

fn chars_of(text: &str) -> (v: Vec<char>)
    ensures
        v@ == text@,
{
    broadcast use vstd::string::group_string_axioms;
    let mut v: Vec<char> = Vec::new();
    for c in it: text.chars()
        invariant
            it.seq() == text@,
            v@ == text@.take(it.index() as int),
    {
        assert(text@.take(it.index() + 1) =~= text@.take(it.index() as int).push(c));
        v.push(c);
    }
    assert(text@.take(text@.len() as int) =~= text@);
    v
}

fn find_dot(t: &Vec<char>, b0: usize) -> (dot: usize)
    requires
        b0 <= t@.len(),
    ensures
        b0 <= dot <= t@.len(),
        char_index(t@.skip(b0 as int), '.') == dot - b0,
{
    let mut dot = b0;
    while dot < t.len() && t[dot] != '.'
        invariant
            b0 <= dot <= t@.len(),
            forall|j: int| b0 <= j < dot ==> t@[j] != '.',
        decreases t@.len() - dot,
    {
        dot = dot + 1;
    }
    proof {
        lemma_char_index(t@.skip(b0 as int), '.', dot - b0);
    }
    dot
}

fn skip_leading_zeros(t: &Vec<char>, lo: usize, hi: usize) -> (ip: usize)
    requires
        lo <= hi <= t@.len(),
    ensures
        lo <= ip <= hi,
        strip_leading_zeros(t@.subrange(lo as int, hi as int)) == t@.subrange(ip as int, hi as int),
{
    let mut ip = lo;
    while ip < hi && t[ip] == '0'
        invariant
            lo <= ip <= hi <= t@.len(),
            forall|j: int| lo <= j < ip ==> t@[j] == '0',
        decreases hi - ip,
    {
        ip = ip + 1;
    }
    proof {
        let d = t@.subrange(lo as int, hi as int);
        lemma_strip_leading(d, ip - lo);
        assert(d.skip(ip - lo) =~= t@.subrange(ip as int, hi as int));
    }
    ip
}

fn skip_trailing_zeros(t: &Vec<char>, lo: usize, hi: usize) -> (fe: usize)
    requires
        lo <= hi <= t@.len(),
    ensures
        lo <= fe <= hi,
        strip_trailing_zeros(t@.subrange(lo as int, hi as int)) == t@.subrange(lo as int, fe as int),
{
    let mut fe = hi;
    while fe > lo && t[fe - 1] == '0'
        invariant
            lo <= fe <= hi <= t@.len(),
            forall|j: int| fe <= j < hi ==> t@[j] == '0',
        decreases fe,
    {
        fe = fe - 1;
    }
    proof {
        let d = t@.subrange(lo as int, hi as int);
        lemma_strip_trailing(d, fe - lo);
        assert(d.take(fe - lo) =~= t@.subrange(lo as int, fe as int));
    }
    fe
}

fn push_chars(out: &mut String, t: &Vec<char>, lo: usize, hi: usize)
    requires
        lo <= hi <= t@.len(),
    ensures
        final(out)@ == old(out)@ + t@.subrange(lo as int, hi as int),
{
    let mut k = lo;
    let ghost start = out@;
    while k < hi
        invariant
            lo <= k <= hi <= t@.len(),
            out@ == start + t@.subrange(lo as int, k as int),
        decreases hi - k,
    {
        push_char(out, t[k]);
        assert(t@.subrange(lo as int, k + 1) =~= t@.subrange(lo as int, k as int).push(t@[k as int]));
        k = k + 1;
    }
}

/// Writes a number's text in its shortest decimal form.
pub(crate) fn summarize_number(text: &str) -> (r: String)
    ensures
        r@ == number_summary(text@),
{
    let t = chars_of(text);
    let neg = t.len() > 0 && t[0] == '-';
    let b0: usize = if t.len() > 0 && (t[0] == '-' || t[0] == '+') { 1 } else { 0 };
    let ghost body = if text@.len() > 0 && (text@[0] == '-' || text@[0] == '+') { text@.drop_first() } else { text@ };
    assert(body =~= t@.skip(b0 as int));
    let dot = find_dot(&t, b0);
    let ip = skip_leading_zeros(&t, b0, dot);
    assert(body.take(dot - b0) =~= t@.subrange(b0 as int, dot as int));
    let fs: usize = if dot < t.len() { dot + 1 } else { dot };
    let fe = skip_trailing_zeros(&t, fs, t.len());
    assert((if dot - b0 < body.len() { body.skip(dot - b0 + 1) } else { seq![] }) =~= t@.subrange(fs as int, t@.len() as int));
    let zero = ip == dot && fe == fs;
    let mut out = String::new();
    if neg && !zero {
        push_char(&mut out, '-');
    }
    if ip == dot {
        push_char(&mut out, '0');
    } else {
        push_chars(&mut out, &t, ip, dot);
    }
    if fe > fs {
        push_char(&mut out, '.');
        push_chars(&mut out, &t, fs, fe);
    }
    assert(out@ =~= number_summary(text@));
    out
}

/// The first `n` keys joined by ", ".
pub open spec fn keys_joined(e: Seq<(Seq<char>, ValueView)>, n: int) -> Seq<char>
    decreases n,
{
    if n <= 0 {
        seq![]
    } else if n == 1 {
        e[0].0
    } else {
        keys_joined(e, n - 1) + ", "@ + e[n - 1].0
    }
}

/// A one-line description of a value.
pub open spec fn value_summary(v: ValueView) -> Seq<char> {
    match v {
        ValueView::Null => "null"@,
        ValueView::Boolean(b) => if b { "true"@ } else { "false"@ },
        ValueView::Number(t) => number_summary(t),
        ValueView::Name(n) => "/"@ + n,
        ValueView::String(s) => "("@ + truncate_text(s, 48) + ")"@,
        ValueView::HexString(h) => {
            let text = spec_decode_pdf_hex_string(h).0;
            if text.contains('\u{fffd}') || text.len() == 0 {
                "<"@ + truncate_text(h, 48) + ">"@
            } else {
                "("@ + truncate_text(text, 48) + ")"@
            }
        },
        ValueView::Array(items) => "["@ + decimal(items.len()) + " item(s)]"@,
        ValueView::Dictionary(d) => "<<"@ + keys_joined(d, if d.len() < 6 { d.len() as int } else { 6 })
            + (if d.len() > 6 { ", ..."@ } else { ""@ }) + ">>"@,
        ValueView::Reference(r) => r.spec_text(),
        ValueView::Raw(t) => truncate_text(t, 64),
    }
}

fn contains_replacement(text: &str) -> (r: bool)
    ensures
        r == text@.contains('\u{fffd}'),
{
    broadcast use vstd::string::group_string_axioms;
    for c in it: text.chars()
        invariant
            it.seq() == text@,
            forall|j: int| 0 <= j < it.index() ==> text@[j] != '\u{fffd}',
    {
        if c == '\u{fffd}' {
            assert(text@[it.index() as int] == '\u{fffd}');
            return true;
        }
    }
    false
}

impl PdfValue {
    /// A one-line description: the value itself for short scalars, counts
    /// for arrays, the first keys of dictionaries, and cut-down text.
    pub fn summary(&self) -> (s: String)
        ensures
            s@ == value_summary(self@),
    {
        match self {
            PdfValue::Null => {
                let s = owned("null");
                assert(s@ == value_summary(self@));
                s
            },
            PdfValue::Boolean(value) => {
                let s = if *value { owned("true") } else { owned("false") };
                assert(s@ == value_summary(self@));
                s
            },
            PdfValue::Number(n) => {
                let s = summarize_number(n.text.as_str());
                assert(s@ == value_summary(self@));
                s
            },
            PdfValue::Name(name) => {
                let mut s = owned("/");
                push_str(&mut s, name.as_str());
                assert(s@ == value_summary(self@));
                s
            },
            PdfValue::String(value) => {
                let mut s = owned("(");
                let t = truncate(value.as_str(), 48);
                push_str(&mut s, t.as_str());
                push_str(&mut s, ")");
                s
            },
            PdfValue::HexString(value) => {
                let decoded = decode_pdf_hex_string(value.as_str());
                if contains_replacement(decoded.text.as_str()) || decoded.text.unicode_len() == 0 {
                    let mut s = owned("<");
                    let t = truncate(value.as_str(), 48);
                    push_str(&mut s, t.as_str());
                    push_str(&mut s, ">");
                    s
                } else {
                    let mut s = owned("(");
                    let t = truncate(decoded.text.as_str(), 48);
                    push_str(&mut s, t.as_str());
                    push_str(&mut s, ")");
                    s
                }
            },
            PdfValue::Array(values) => {
                let mut s = owned("[");
                push_decimal(&mut s, values.len());
                push_str(&mut s, " item(s)]");
                proof {
                    crate::value_views::lemma_value_views(values@);
                    assert(self@ == ValueView::Array(crate::value_views::value_views(values@)));
                }
                assert(s@ == value_summary(self@));
                s
            },
            PdfValue::Dictionary(dict) => {
                let mut s = owned("<<");
                let n = dict.len();
                let shown: usize = if n < 6 { n } else { 6 };
                let ghost start = s@;
                let mut i: usize = 0;
                while i < shown
                    invariant
                        i <= shown <= n,
                        n == dict@.len(),
                        shown == if n < 6 { n } else { 6 },
                        s@ == start + keys_joined(dict@, i as int),
                    decreases shown - i,
                {
                    let (key, _) = dict.entry(i);
                    if i > 0 {
                        push_str(&mut s, ", ");
                    }
                    push_str(&mut s, key.as_str());
                    proof {
                        reveal_strlit(", ");
                        if i == 0 {
                            assert(keys_joined(dict@, 0) == Seq::<char>::empty());
                        }
                    }
                    assert(s@ =~= start + keys_joined(dict@, i + 1));
                    i = i + 1;
                }
                if n > 6 {
                    push_str(&mut s, ", ...");
                } else {
                    push_str(&mut s, "");
                }
                push_str(&mut s, ">>");
                assert(s@ == value_summary(self@));
                s
            },
            PdfValue::Reference(reference) => reference.to_text(),
            PdfValue::Raw(value) => truncate(value.as_str(), 64),
        }
    }
}

} // verus!
