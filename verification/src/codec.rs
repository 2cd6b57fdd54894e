//! The wire codec: one envelope per line, as a textual structured encoding
//! with the field names `message_type`, `username` and `content`.
//!
//! The grammar is fixed here once, by `spec_encode`: an object with the three
//! fields in that order, variant kinds written as lowercase keywords, a
//! missing sender written `null`, and string payloads quoted with `"`, `\`
//! and control characters escaped. `encode_envelope` produces exactly that
//! form and `decode_envelope` accepts exactly that form, so the decoder's
//! contract can say precisely which lines parse and to which envelope.

use vstd::prelude::*;
use vstd::string::{StrSliceExecFns, StringExecFns};
use crate::message::{opt_name_view, ChatMessage, ChatMessageType, ChatMessageView, CommandType};

verus! {

// ---------------------------------------------------------------------------
// Escaping of string payloads
// ---------------------------------------------------------------------------

/// The lowercase hexadecimal digit for `n`.
pub open spec fn spec_hex_digit(n: int) -> char {
    if n == 0 {
        '0'
    } else if n == 1 {
        '1'
    } else if n == 2 {
        '2'
    } else if n == 3 {
        '3'
    } else if n == 4 {
        '4'
    } else if n == 5 {
        '5'
    } else if n == 6 {
        '6'
    } else if n == 7 {
        '7'
    } else if n == 8 {
        '8'
    } else if n == 9 {
        '9'
    } else if n == 10 {
        'a'
    } else if n == 11 {
        'b'
    } else if n == 12 {
        'c'
    } else if n == 13 {
        'd'
    } else if n == 14 {
        'e'
    } else {
        'f'
    }
}

/// How one character appears inside a quoted string on the wire: `"` and `\`
/// get a backslash, control characters become `\u00xx`, everything else
/// stands for itself.
pub open spec fn spec_escape_char(c: char) -> Seq<char> {
    if c == '"' {
        seq!['\\', '"']
    } else if c == '\\' {
        seq!['\\', '\\']
    } else if (c as u32) < 32 {
        seq![
            '\\',
            'u',
            '0',
            '0',
            spec_hex_digit((c as u32) as int / 16),
            spec_hex_digit((c as u32) as int % 16),
        ]
    } else {
        seq![c]
    }
}

/// A whole payload escaped character by character.
pub open spec fn spec_escape(s: Seq<char>) -> Seq<char>
    decreases s.len(),
{
    if s.len() == 0 {
        Seq::empty()
    } else {
        spec_escape_char(s[0]) + spec_escape(s.skip(1))
    }
}

/// Escaping a concatenation escapes each part.
pub proof fn lemma_escape_distributes(a: Seq<char>, b: Seq<char>)
    ensures
        spec_escape(a + b) == spec_escape(a) + spec_escape(b),
    decreases a.len(),
{
    if a.len() == 0 {
        assert(a + b =~= b);
        assert(spec_escape(a) + spec_escape(b) =~= spec_escape(b));
    } else {
        assert((a + b).len() > 0);
        assert((a + b)[0] == a[0]);
        assert((a + b).skip(1) =~= a.skip(1) + b);
        lemma_escape_distributes(a.skip(1), b);
        assert(spec_escape(a + b) == spec_escape_char(a[0]) + (spec_escape(a.skip(1)) + spec_escape(
            b,
        )));
        assert(spec_escape_char(a[0]) + (spec_escape(a.skip(1)) + spec_escape(b))
            =~= (spec_escape_char(a[0]) + spec_escape(a.skip(1))) + spec_escape(b));
        assert(spec_escape(a) == spec_escape_char(a[0]) + spec_escape(a.skip(1)));
    }
}

/// Escaping one more character appends its escape.
pub proof fn lemma_escape_push(s: Seq<char>, c: char)
    ensures
        spec_escape(s.push(c)) == spec_escape(s) + spec_escape_char(c),
{
    assert(s.push(c) =~= s + seq![c]);
    lemma_escape_distributes(s, seq![c]);
    assert(spec_escape(seq![c]) == spec_escape_char(c) + spec_escape(seq![c].skip(1)));
    assert(seq![c].skip(1) =~= Seq::<char>::empty());
    assert(spec_escape_char(c) + spec_escape(Seq::<char>::empty()) =~= spec_escape_char(c));
}

// ---------------------------------------------------------------------------
// The envelope grammar
// ---------------------------------------------------------------------------

/// The opening of every encoded envelope: `{"message_type":`.
pub open spec fn spec_lit_head() -> Seq<char> {
    seq!['{', '"', 'm', 'e', 's', 's', 'a', 'g', 'e', '_', 't', 'y', 'p', 'e', '"', ':']
}

/// The separator before the sender field: `,"username":`.
pub open spec fn spec_lit_user() -> Seq<char> {
    seq![',', '"', 'u', 's', 'e', 'r', 'n', 'a', 'm', 'e', '"', ':']
}

/// The separator before the payload, with the payload's opening quote:
/// `,"content":"`.
pub open spec fn spec_lit_content() -> Seq<char> {
    seq![',', '"', 'c', 'o', 'n', 't', 'e', 'n', 't', '"', ':', '"']
}

/// The keyword for each envelope kind.
pub open spec fn spec_kind_tok(k: ChatMessageType) -> Seq<char> {
    match k {
        ChatMessageType::Message => seq!['"', 'm', 'e', 's', 's', 'a', 'g', 'e', '"'],
        ChatMessageType::Join => seq!['"', 'j', 'o', 'i', 'n', '"'],
        ChatMessageType::Leave => seq!['"', 'l', 'e', 'a', 'v', 'e', '"'],
        ChatMessageType::Command(CommandType::List) => seq![
            '{',
            '"',
            'c',
            'o',
            'm',
            'm',
            'a',
            'n',
            'd',
            '"',
            ':',
            '"',
            'l',
            'i',
            's',
            't',
            '"',
            '}',
        ],
        ChatMessageType::Command(CommandType::Quit) => seq![
            '{',
            '"',
            'c',
            'o',
            'm',
            'm',
            'a',
            'n',
            'd',
            '"',
            ':',
            '"',
            'q',
            'u',
            'i',
            't',
            '"',
            '}',
        ],
    }
}

/// The sender field: `null` when absent, a quoted escaped name when present.
pub open spec fn spec_user_tok(u: Option<Seq<char>>) -> Seq<char> {
    match u {
        None => seq!['n', 'u', 'l', 'l'],
        Some(name) => seq!['"'] + spec_escape(name) + seq!['"'],
    }
}

/// The one line an envelope takes on the wire, without the line terminator.
pub open spec fn spec_encode(m: ChatMessageView) -> Seq<char> {
    spec_lit_head() + spec_kind_tok(m.message_type) + spec_lit_user() + spec_user_tok(m.username)
        + spec_lit_content() + spec_escape(m.content) + seq!['"', '}']
}

// ---------------------------------------------------------------------------
// Unambiguity of the grammar
// ---------------------------------------------------------------------------

/// `spec_hex_digit` tells its sixteen inputs apart.
pub proof fn lemma_hex_digit_injective(a: int, b: int)
    requires
        0 <= a < 16,
        0 <= b < 16,
        spec_hex_digit(a) == spec_hex_digit(b),
    ensures
        a == b,
{
}

/// An escaped character starts with a backslash or stands for itself; it
/// never starts with a quote or a control character.
pub proof fn lemma_escape_char_shape(c: char)
    ensures
        1 <= spec_escape_char(c).len() <= 6,
        spec_escape_char(c)[0] != '"',
        spec_escape_char(c)[0] == '\\' || (spec_escape_char(c)[0] as u32) >= 32,
        spec_escape_char(c)[0] == '\\' ==> spec_escape_char(c).len() >= 2 && (spec_escape_char(
            c,
        )[1] == '"' || spec_escape_char(c)[1] == '\\' || spec_escape_char(c)[1] == 'u'),
{
}

/// No two characters' escapes can open the same sequence: whatever follows,
/// the escaped character and the rest are both determined.
pub proof fn lemma_escape_char_unambig(c: char, d: char, u: Seq<char>, v: Seq<char>)
    requires
        spec_escape_char(c) + u == spec_escape_char(d) + v,
    ensures
        c == d,
        u == v,
{
    let l = spec_escape_char(c) + u;
    let cv = c as u32;
    let dv = d as u32;
    if c == '"' || c == '\\' || cv < 32 {
        assert(l[0] == '\\');
        assert(spec_escape_char(d)[0] == '\\');
        assert(!(d != '"' && d != '\\' && dv >= 32));
        if c == '"' {
            assert(l[1] == '"');
            assert(d == '"');
        } else if c == '\\' {
            assert(l[1] == '\\');
            assert(d == '\\');
        } else {
            assert(l[1] == 'u');
            assert(dv < 32);
            assert(l[4] == spec_hex_digit(cv as int / 16));
            assert(l[4] == spec_hex_digit(dv as int / 16));
            assert(l[5] == spec_hex_digit(cv as int % 16));
            assert(l[5] == spec_hex_digit(dv as int % 16));
            lemma_hex_digit_injective(cv as int / 16, dv as int / 16);
            lemma_hex_digit_injective(cv as int % 16, dv as int % 16);
            assert(cv == dv);
            assert(c == d);
        }
    } else {
        assert(l[0] == c);
        if d == '"' || d == '\\' || dv < 32 {
            assert(spec_escape_char(d)[0] == '\\');
            assert(c == '\\');
            assert(false);
        }
        assert(spec_escape_char(d) == seq![d]);
        assert(c == d);
    }
    assert(spec_escape_char(c).len() == spec_escape_char(d).len());
    assert(u =~= v) by {
        assert((spec_escape_char(c) + u).len() == spec_escape_char(c).len() + u.len());
        assert((spec_escape_char(d) + v).len() == spec_escape_char(d).len() + v.len());
        assert(u.len() == v.len());
        assert forall|i: int| 0 <= i < u.len() implies u[i] == v[i] by {
            let n = spec_escape_char(c).len();
            assert((spec_escape_char(c) + u)[n + i] == u[i]);
            assert((spec_escape_char(d) + v)[n + i] == v[i]);
        }
    }
}

/// Aligning an escaped payload against an escaped payload with its closing
/// quote: the first is a prefix of the second, and the remainders line up.
pub proof fn lemma_escape_align(out: Seq<char>, rest1: Seq<char>, t: Seq<char>, rest2: Seq<char>)
    requires
        spec_escape(out) + rest1 == spec_escape(t) + seq!['"'] + rest2,
    ensures
        out.len() <= t.len(),
        t.take(out.len() as int) == out,
        rest1 == spec_escape(t.skip(out.len() as int)) + seq!['"'] + rest2,
    decreases out.len(),
{
    if out.len() == 0 {
        assert(spec_escape(out) + rest1 =~= rest1);
        assert(t.take(0) =~= out);
        assert(t.skip(0) =~= t);
    } else {
        lemma_escape_char_shape(out[0]);
        if t.len() == 0 {
            assert(spec_escape(t) + seq!['"'] + rest2 =~= seq!['"'] + rest2);
            assert((seq!['"'] + rest2)[0] == '"');
            assert((spec_escape(out) + rest1)[0] == spec_escape_char(out[0])[0]);
            assert(false);
        } else {
            assert(spec_escape(out) + rest1 =~= spec_escape_char(out[0]) + (spec_escape(
                out.skip(1),
            ) + rest1));
            assert(spec_escape(t) + seq!['"'] + rest2 =~= spec_escape_char(t[0]) + (spec_escape(
                t.skip(1),
            ) + seq!['"'] + rest2));
            lemma_escape_char_unambig(
                out[0],
                t[0],
                spec_escape(out.skip(1)) + rest1,
                spec_escape(t.skip(1)) + seq!['"'] + rest2,
            );
            lemma_escape_align(out.skip(1), rest1, t.skip(1), rest2);
            assert(t.take(out.len() as int) =~= out) by {
                assert(t[0] == out[0]);
                assert(t.skip(1).take(out.len() - 1) == out.skip(1));
                assert forall|i: int| 0 <= i < out.len() implies t.take(out.len() as int)[i]
                    == out[i] by {
                    if i > 0 {
                        assert(t.skip(1).take(out.len() - 1)[i - 1] == out.skip(1)[i - 1]);
                    }
                }
            }
            assert(t.skip(1).skip(out.len() - 1) =~= t.skip(out.len() as int));
        }
    }
}

/// An escaped payload with its closing quote is read off a sequence in only
/// one way.
pub proof fn lemma_escaped_string_unique(
    a: Seq<char>,
    r1: Seq<char>,
    b: Seq<char>,
    r2: Seq<char>,
)
    requires
        spec_escape(a) + seq!['"'] + r1 == spec_escape(b) + seq!['"'] + r2,
    ensures
        a == b,
        r1 == r2,
{
    assert(spec_escape(a) + seq!['"'] + r1 =~= spec_escape(a) + (seq!['"'] + r1));
    lemma_escape_align(a, seq!['"'] + r1, b, r2);
    let brest = b.skip(a.len() as int);
    if brest.len() > 0 {
        lemma_escape_char_shape(brest[0]);
        assert((spec_escape(brest) + seq!['"'] + r2)[0] == spec_escape_char(brest[0])[0]);
        assert((seq!['"'] + r1)[0] == '"');
        assert(false);
    }
    assert(spec_escape(brest) =~= Seq::<char>::empty());
    assert(b.take(a.len() as int) =~= b);
    assert(a == b);
    assert(seq!['"'] + r1 =~= seq!['"'] + r2);
    assert(r1 =~= r2) by {
        assert forall|i: int| 0 <= i < r1.len() implies r1[i] == r2[i] by {
            assert((seq!['"'] + r1)[i + 1] == r1[i]);
            assert((seq!['"'] + r2)[i + 1] == r2[i]);
        }
    }
}

/// Two concatenations are the same sequence exactly when their parts agree,
/// once the first parts have the same length.
pub proof fn lemma_concat_parts(a: Seq<char>, b: Seq<char>, c: Seq<char>, d: Seq<char>)
    requires
        a + b == c + d,
        a.len() == c.len(),
    ensures
        a == c,
        b == d,
{
    assert(a =~= c) by {
        assert forall|i: int| 0 <= i < a.len() implies a[i] == c[i] by {
            assert((a + b)[i] == a[i]);
            assert((c + d)[i] == c[i]);
        }
    }
    assert(b =~= d) by {
        assert((a + b).len() == a.len() + b.len());
        assert((c + d).len() == c.len() + d.len());
        assert forall|i: int| 0 <= i < b.len() implies b[i] == d[i] by {
            assert((a + b)[a.len() + i] == b[i]);
            assert((c + d)[c.len() + i] == d[i]);
        }
    }
}

/// A sequence read from `a` on is what stands between `a` and `b`, then the
/// rest.
pub proof fn lemma_split_at(s: Seq<char>, a: int, b: int)
    requires
        0 <= a <= b <= s.len(),
    ensures
        s.skip(a) == s.subrange(a, b) + s.skip(b),
{
    assert(s.skip(a) =~= s.subrange(a, b) + s.skip(b));
}

/// The keyword of a kind determines the kind and what follows it.
pub proof fn lemma_kind_tok_unambig(
    a: ChatMessageType,
    b: ChatMessageType,
    u: Seq<char>,
    v: Seq<char>,
)
    requires
        spec_kind_tok(a) + u == spec_kind_tok(b) + v,
    ensures
        a == b,
        u == v,
{
    let la = spec_kind_tok(a);
    let lb = spec_kind_tok(b);
    assert forall|k: int| 0 <= k < la.len() && k < lb.len() implies la[k] == lb[k] by {
        assert((la + u)[k] == la[k]);
        assert((lb + v)[k] == lb[k]);
    }
    assert(la[0] == lb[0]);
    assert(la[1] == lb[1]);
    if la.len() > 12 && lb.len() > 12 {
        assert(la[12] == lb[12]);
    }
    assert(a == b);
    lemma_concat_parts(la, u, lb, v);
}

/// The sender field determines the sender and what follows it.
pub proof fn lemma_user_tok_unambig(
    a: Option<Seq<char>>,
    b: Option<Seq<char>>,
    u: Seq<char>,
    v: Seq<char>,
)
    requires
        spec_user_tok(a) + u == spec_user_tok(b) + v,
    ensures
        a == b,
        u == v,
{
    let la = spec_user_tok(a);
    let lb = spec_user_tok(b);
    assert((la + u)[0] == la[0]);
    assert((lb + v)[0] == lb[0]);
    match (a, b) {
        (None, None) => {
            lemma_concat_parts(la, u, lb, v);
        },
        (None, Some(y)) => {
            assert(la[0] == 'n');
            assert(lb =~= seq!['"'] + (spec_escape(y) + seq!['"']));
            assert(lb[0] == '"');
            assert(false);
        },
        (Some(x), None) => {
            assert(lb[0] == 'n');
            assert(la =~= seq!['"'] + (spec_escape(x) + seq!['"']));
            assert(la[0] == '"');
            assert(false);
        },
        (Some(x), Some(y)) => {
            assert(la + u =~= seq!['"'] + (spec_escape(x) + seq!['"'] + u));
            assert(lb + v =~= seq!['"'] + (spec_escape(y) + seq!['"'] + v));
            lemma_concat_parts(
                seq!['"'],
                spec_escape(x) + seq!['"'] + u,
                seq!['"'],
                spec_escape(y) + seq!['"'] + v,
            );
            lemma_escaped_string_unique(x, u, y, v);
        },
    }
}

/// Two envelopes with the same wire line are the same envelope: the wire
/// grammar is unambiguous.
#[verifier::rlimit(50)]
pub proof fn lemma_encode_injective(m1: ChatMessageView, m2: ChatMessageView)
    requires
        spec_encode(m1) == spec_encode(m2),
    ensures
        m1.message_type == m2.message_type,
        m1.username == m2.username,
        m1.content == m2.content,
{
    let r1 = spec_lit_user() + spec_user_tok(m1.username) + spec_lit_content() + spec_escape(
        m1.content,
    ) + seq!['"', '}'];
    let r2 = spec_lit_user() + spec_user_tok(m2.username) + spec_lit_content() + spec_escape(
        m2.content,
    ) + seq!['"', '}'];
    assert(spec_encode(m1) =~= spec_lit_head() + (spec_kind_tok(m1.message_type) + r1));
    assert(spec_encode(m2) =~= spec_lit_head() + (spec_kind_tok(m2.message_type) + r2));
    lemma_concat_parts(
        spec_lit_head(),
        spec_kind_tok(m1.message_type) + r1,
        spec_lit_head(),
        spec_kind_tok(m2.message_type) + r2,
    );
    lemma_kind_tok_unambig(m1.message_type, m2.message_type, r1, r2);
    let s1 = spec_user_tok(m1.username) + (spec_lit_content() + spec_escape(m1.content)
        + seq!['"', '}']);
    let s2 = spec_user_tok(m2.username) + (spec_lit_content() + spec_escape(m2.content)
        + seq!['"', '}']);
    assert(r1 =~= spec_lit_user() + s1);
    assert(r2 =~= spec_lit_user() + s2);
    lemma_concat_parts(spec_lit_user(), s1, spec_lit_user(), s2);
    lemma_user_tok_unambig(
        m1.username,
        m2.username,
        spec_lit_content() + spec_escape(m1.content) + seq!['"', '}'],
        spec_lit_content() + spec_escape(m2.content) + seq!['"', '}'],
    );
    let t1 = spec_escape(m1.content) + seq!['"'] + seq!['}'];
    let t2 = spec_escape(m2.content) + seq!['"'] + seq!['}'];
    assert(spec_lit_content() + spec_escape(m1.content) + seq!['"', '}'] =~= spec_lit_content()
        + t1);
    assert(spec_lit_content() + spec_escape(m2.content) + seq!['"', '}'] =~= spec_lit_content()
        + t2);
    lemma_concat_parts(spec_lit_content(), t1, spec_lit_content(), t2);
    lemma_escaped_string_unique(m1.content, seq!['}'], m2.content, seq!['}']);
}

// ---------------------------------------------------------------------------
// The encoder
// ---------------------------------------------------------------------------

/// The lowercase hexadecimal digit for `n`.
fn hex_digit(n: u32) -> (r: char)
    requires
        n < 16,
    ensures
        r == spec_hex_digit(n as int),
{
    match n {
        0 => '0',
        1 => '1',
        2 => '2',
        3 => '3',
        4 => '4',
        5 => '5',
        6 => '6',
        7 => '7',
        8 => '8',
        9 => '9',
        10 => 'a',
        11 => 'b',
        12 => 'c',
        13 => 'd',
        14 => 'e',
        _ => 'f',
    }
}

/// Appends the escape of one payload character.
fn push_escaped_char(out: &mut Vec<char>, c: char)
    ensures
        final(out)@ == old(out)@ + spec_escape_char(c),
{
    if c == '"' {
        out.push('\\');
        out.push('"');
        assert(final(out)@ =~= old(out)@ + spec_escape_char(c));
    } else if c == '\\' {
        out.push('\\');
        out.push('\\');
        assert(final(out)@ =~= old(out)@ + spec_escape_char(c));
    } else {
        let v = c as u32;
        if v < 32 {
            out.push('\\');
            out.push('u');
            out.push('0');
            out.push('0');
            out.push(hex_digit(v / 16));
            out.push(hex_digit(v % 16));
            assert(final(out)@ =~= old(out)@ + spec_escape_char(c));
        } else {
            out.push(c);
            assert(final(out)@ =~= old(out)@ + spec_escape_char(c));
        }
    }
}

/// Appends the escape of a whole payload.
fn push_escaped(out: &mut Vec<char>, s: &str)
    ensures
        final(out)@ == old(out)@ + spec_escape(s@),
{
    let n = s.unicode_len();
    let mut i: usize = 0;
    while i < n
        invariant
            n == s@.len(),
            i <= n,
            out@ == old(out)@ + spec_escape(s@.take(i as int)),
        decreases n - i,
    {
        let c = s.get_char(i);
        push_escaped_char(out, c);
        proof {
            assert(s@.take(i + 1) =~= s@.take(i as int).push(s@[i as int]));
            lemma_escape_push(s@.take(i as int), s@[i as int]);
        }
        i = i + 1;
    }
    proof {
        assert(s@.take(n as int) =~= s@);
    }
}

/// The characters of `s`, in order.
pub fn str_to_chars(s: &str) -> (r: Vec<char>)
    ensures
        r@ == s@,
{
    let n = s.unicode_len();
    let mut out: Vec<char> = Vec::new();
    let mut i: usize = 0;
    while i < n
        invariant
            n == s@.len(),
            i <= n,
            out@ == s@.take(i as int),
        decreases n - i,
    {
        out.push(s.get_char(i));
        proof {
            assert(s@.take(i + 1) =~= s@.take(i as int).push(s@[i as int]));
        }
        i = i + 1;
    }
    proof {
        assert(s@.take(n as int) =~= s@);
    }
    out
}

/// Relies on `String`'s `FromIterator<char>` impl: collecting characters
/// yields the string of exactly those characters, in order.
#[verifier::external_body]
fn chars_to_string(cs: &Vec<char>) -> (r: String)
    ensures
        r@ == cs@,
{
    cs.iter().collect()
}

/// Appends `{"message_type":`.
fn push_lit_head(out: &mut Vec<char>)
    ensures
        final(out)@ == old(out)@ + spec_lit_head(),
{
    out.push('{');
    out.push('"');
    out.push('m');
    out.push('e');
    out.push('s');
    out.push('s');
    out.push('a');
    out.push('g');
    out.push('e');
    out.push('_');
    out.push('t');
    out.push('y');
    out.push('p');
    out.push('e');
    out.push('"');
    out.push(':');
    assert(final(out)@ =~= old(out)@ + spec_lit_head());
}

/// Appends `,"username":`.
fn push_lit_user(out: &mut Vec<char>)
    ensures
        final(out)@ == old(out)@ + spec_lit_user(),
{
    out.push(',');
    out.push('"');
    out.push('u');
    out.push('s');
    out.push('e');
    out.push('r');
    out.push('n');
    out.push('a');
    out.push('m');
    out.push('e');
    out.push('"');
    out.push(':');
    assert(final(out)@ =~= old(out)@ + spec_lit_user());
}

/// Appends `,"content":"`.
fn push_lit_content(out: &mut Vec<char>)
    ensures
        final(out)@ == old(out)@ + spec_lit_content(),
{
    out.push(',');
    out.push('"');
    out.push('c');
    out.push('o');
    out.push('n');
    out.push('t');
    out.push('e');
    out.push('n');
    out.push('t');
    out.push('"');
    out.push(':');
    out.push('"');
    assert(final(out)@ =~= old(out)@ + spec_lit_content());
}

/// Appends the keyword of `k`.
fn push_kind_tok(out: &mut Vec<char>, k: ChatMessageType)
    ensures
        final(out)@ == old(out)@ + spec_kind_tok(k),
{
    match k {
        ChatMessageType::Message => {
            out.push('"');
            out.push('m');
            out.push('e');
            out.push('s');
            out.push('s');
            out.push('a');
            out.push('g');
            out.push('e');
            out.push('"');
            assert(final(out)@ =~= old(out)@ + spec_kind_tok(k));
        },
        ChatMessageType::Join => {
            out.push('"');
            out.push('j');
            out.push('o');
            out.push('i');
            out.push('n');
            out.push('"');
            assert(final(out)@ =~= old(out)@ + spec_kind_tok(k));
        },
        ChatMessageType::Leave => {
            out.push('"');
            out.push('l');
            out.push('e');
            out.push('a');
            out.push('v');
            out.push('e');
            out.push('"');
            assert(final(out)@ =~= old(out)@ + spec_kind_tok(k));
        },
        ChatMessageType::Command(c) => {
            out.push('{');
            out.push('"');
            out.push('c');
            out.push('o');
            out.push('m');
            out.push('m');
            out.push('a');
            out.push('n');
            out.push('d');
            out.push('"');
            out.push(':');
            out.push('"');
            match c {
                CommandType::List => {
                    out.push('l');
                    out.push('i');
                    out.push('s');
                    out.push('t');
                },
                CommandType::Quit => {
                    out.push('q');
                    out.push('u');
                    out.push('i');
                    out.push('t');
                },
            }
            out.push('"');
            out.push('}');
            assert(final(out)@ =~= old(out)@ + spec_kind_tok(k));
        },
    }
}

// ---------------------------------------------------------------------------
// The decoder
// ---------------------------------------------------------------------------

/// Value of a lowercase hexadecimal digit, if `c` is one.
fn hex_val(c: char) -> (r: Option<u32>)
    ensures
        match r {
            Some(v) => v < 16 && spec_hex_digit(v as int) == c,
            None => forall|n: int| 0 <= n < 16 ==> spec_hex_digit(n) != c,
        },
{
    match c {
        '0' => Some(0),
        '1' => Some(1),
        '2' => Some(2),
        '3' => Some(3),
        '4' => Some(4),
        '5' => Some(5),
        '6' => Some(6),
        '7' => Some(7),
        '8' => Some(8),
        '9' => Some(9),
        'a' => Some(10),
        'b' => Some(11),
        'c' => Some(12),
        'd' => Some(13),
        'e' => Some(14),
        'f' => Some(15),
        _ => None,
    }
}

/// The control character with code `v`.
fn ctrl_char(v: u32) -> (r: char)
    requires
        v < 32,
    ensures
        (r as u32) == v,
{
    match v {
        0 => '\u{00}',
        1 => '\u{01}',
        2 => '\u{02}',
        3 => '\u{03}',
        4 => '\u{04}',
        5 => '\u{05}',
        6 => '\u{06}',
        7 => '\u{07}',
        8 => '\u{08}',
        9 => '\u{09}',
        10 => '\u{0a}',
        11 => '\u{0b}',
        12 => '\u{0c}',
        13 => '\u{0d}',
        14 => '\u{0e}',
        15 => '\u{0f}',
        16 => '\u{10}',
        17 => '\u{11}',
        18 => '\u{12}',
        19 => '\u{13}',
        20 => '\u{14}',
        21 => '\u{15}',
        22 => '\u{16}',
        23 => '\u{17}',
        24 => '\u{18}',
        25 => '\u{19}',
        26 => '\u{1a}',
        27 => '\u{1b}',
        28 => '\u{1c}',
        29 => '\u{1d}',
        30 => '\u{1e}',
        _ => '\u{1f}',
    }
}

/// Whether a quoted payload can continue at `cur`: some payload remainder
/// with its closing quote is read there.
pub open spec fn spec_cont_at(s: Seq<char>, cur: int, j: int, t: Seq<char>) -> bool {
    cur <= j <= s.len() && s.subrange(cur, j) == spec_escape(t) + seq!['"']
}

/// What the head of a continuation looks like: the escape of the payload's
/// first character stands at `cur`.
proof fn lemma_cont_shape(s: Seq<char>, cur: int, j: int, t: Seq<char>)
    requires
        0 <= cur,
        spec_cont_at(s, cur, j, t),
        t.len() > 0,
    ensures
        j - cur >= spec_escape_char(t[0]).len() + 1,
        forall|k: int|
            0 <= k < spec_escape_char(t[0]).len() ==> s[cur + k] == spec_escape_char(t[0])[k],
{
    let e0 = spec_escape_char(t[0]);
    assert(spec_escape(t) == e0 + spec_escape(t.skip(1)));
    assert((spec_escape(t) + seq!['"']).len() == spec_escape(t).len() + 1);
    assert(spec_escape(t).len() == e0.len() + spec_escape(t.skip(1)).len());
    assert forall|k: int| 0 <= k < e0.len() implies s[cur + k] == e0[k] by {
        assert(s.subrange(cur, j)[k] == s[cur + k]);
        assert((spec_escape(t) + seq!['"'])[k] == spec_escape(t)[k]);
        assert(spec_escape(t)[k] == (e0 + spec_escape(t.skip(1)))[k]);
    }
}

/// If no continuation is read at `cur`, none is read at `start` either, given
/// that `start..cur` already reads as an escaped payload.
proof fn lemma_no_cont_back(s: Seq<char>, start: int, cur: int, out: Seq<char>)
    requires
        0 <= start <= cur <= s.len(),
        s.subrange(start, cur) == spec_escape(out),
        forall|t2: Seq<char>, j: int| !spec_cont_at(s, cur, j, t2),
    ensures
        forall|t: Seq<char>, j: int| !spec_cont_at(s, start, j, t),
{
    assert forall|t: Seq<char>, j: int| !spec_cont_at(s, start, j, t) by {
        if spec_cont_at(s, start, j, t) {
            assert(s.subrange(start, s.len() as int) =~= s.subrange(start, cur) + s.subrange(
                cur,
                s.len() as int,
            ));
            assert(s.subrange(start, s.len() as int) =~= s.subrange(start, j) + s.subrange(
                j,
                s.len() as int,
            ));
            assert(spec_escape(out) + s.subrange(cur, s.len() as int) == spec_escape(t)
                + seq!['"'] + s.subrange(j, s.len() as int));
            lemma_escape_align(
                out,
                s.subrange(cur, s.len() as int),
                t,
                s.subrange(j, s.len() as int),
            );
            let t2 = t.skip(out.len() as int);
            assert(s.subrange(cur, s.len() as int) == spec_escape(t2) + seq!['"'] + s.subrange(
                j,
                s.len() as int,
            ));
            let j2 = cur + spec_escape(t2).len() + 1;
            assert(j2 == j) by {
                assert(s.subrange(cur, s.len() as int).len() == s.len() - cur);
                assert((spec_escape(t2) + seq!['"'] + s.subrange(j, s.len() as int)).len()
                    == spec_escape(t2).len() + 1 + s.len() - j);
            }
            assert(s.subrange(cur, j2) =~= spec_escape(t2) + seq!['"']) by {
                assert forall|k: int| 0 <= k < j2 - cur implies s.subrange(cur, j2)[k] == (
                spec_escape(t2) + seq!['"'])[k] by {
                    assert(s.subrange(cur, s.len() as int)[k] == s[cur + k]);
                    assert(s.subrange(cur, j2)[k] == s[cur + k]);
                    assert((spec_escape(t2) + seq!['"'] + s.subrange(j, s.len() as int))[k] == (
                    spec_escape(t2) + seq!['"'])[k]);
                }
            }
            assert(spec_cont_at(s, cur, j2, t2));
            assert(false);
        }
    }
}

/// Reads a quoted payload from `start` up to and including its closing
/// quote. Returns the payload and the position after the quote; `None`
/// exactly when no escaped payload with a closing quote starts there.
fn parse_string(cs: &Vec<char>, start: usize) -> (r: Option<(Vec<char>, usize)>)
    requires
        start <= cs@.len(),
    ensures
        match r {
            Some(p) => start <= p.1 <= cs@.len() && cs@.subrange(start as int, p.1 as int)
                == spec_escape(p.0@) + seq!['"'],
            None => forall|t: Seq<char>, j: int| !spec_cont_at(cs@, start as int, j, t),
        },
{
    let ghost s = cs@;
    let len = cs.len();
    let mut out: Vec<char> = Vec::new();
    let mut cur: usize = start;
    loop
        invariant
            start <= cur <= len,
            len == s.len(),
            s == cs@,
            s.subrange(start as int, cur as int) == spec_escape(out@),
        decreases len - cur,
    {
        if cur == len {
            proof {
                assert forall|t2: Seq<char>, j: int| !spec_cont_at(s, cur as int, j, t2) by {
                    if spec_cont_at(s, cur as int, j, t2) {
                        assert(s.subrange(cur as int, j).len() == j - cur);
                        assert((spec_escape(t2) + seq!['"']).len() >= 1);
                        assert(j > cur);
                    }
                }
                lemma_no_cont_back(s, start as int, cur as int, out@);
            }
            return None;
        }
        let c = cs[cur];
        if c == '"' {
            proof {
                assert(s.subrange(start as int, (cur + 1) as int) =~= spec_escape(out@)
                    + seq!['"']);
            }
            return Some((out, cur + 1));
        } else if c == '\\' {
            if cur + 1 == len {
                proof {
                    assert forall|t2: Seq<char>, j: int| !spec_cont_at(s, cur as int, j, t2) by {
                        if spec_cont_at(s, cur as int, j, t2) {
                            if t2.len() == 0 {
                                assert(s.subrange(cur as int, j)[0] == s[cur as int]);
                                assert((spec_escape(t2) + seq!['"'])[0] == '"');
                            } else {
                                lemma_cont_shape(s, cur as int, j, t2);
                                lemma_escape_char_shape(t2[0]);
                                assert(spec_escape_char(t2[0])[0] == '\\');
                                assert(spec_escape_char(t2[0]).len() >= 2);
                                assert(j >= cur + 3);
                            }
                        }
                    }
                    lemma_no_cont_back(s, start as int, cur as int, out@);
                }
                return None;
            }
            let d = cs[cur + 1];
            if d == '"' || d == '\\' {
                let ghost out_pre = out@;
                out.push(d);
                proof {
                    lemma_escape_push(out_pre, d);
                    assert(out@ == out_pre.push(d));
                    assert(spec_escape_char(d) =~= seq![s[cur as int], s[cur + 1]]);
                    assert(s.subrange(cur as int, cur + 2) =~= seq![s[cur as int], s[cur + 1]]);
                    assert(s.subrange(start as int, cur + 2) =~= s.subrange(
                        start as int,
                        cur as int,
                    ) + s.subrange(cur as int, cur + 2));
                    assert(s.subrange(start as int, cur + 2) == spec_escape(out@));
                }
                cur = cur + 2;
            } else if d == 'u' {
                let enough = len - cur > 5;
                let ok0 = enough && cs[cur + 2] == '0' && cs[cur + 3] == '0';
                let v1 = if ok0 {
                    hex_val(cs[cur + 4])
                } else {
                    None
                };
                let v2 = if ok0 {
                    hex_val(cs[cur + 5])
                } else {
                    None
                };
                let mut good = false;
                let mut v: u32 = 0;
                if ok0 {
                    if let Some(d1) = v1 {
                        if let Some(d2) = v2 {
                            v = 16 * d1 + d2;
                            if v < 32 {
                                good = true;
                            }
                        }
                    }
                }
                if !good {
                    proof {
                        assert forall|t2: Seq<char>, j: int|
                            !spec_cont_at(s, cur as int, j, t2) by {
                            if spec_cont_at(s, cur as int, j, t2) {
                                if t2.len() == 0 {
                                    assert(s.subrange(cur as int, j)[0] == s[cur as int]);
                                    assert((spec_escape(t2) + seq!['"'])[0] == '"');
                                } else {
                                    lemma_cont_shape(s, cur as int, j, t2);
                                    lemma_escape_char_shape(t2[0]);
                                    let e0 = spec_escape_char(t2[0]);
                                    assert(e0[0] == '\\');
                                    assert(e0[1] == 'u');
                                    let n = t2[0] as u32;
                                    assert(n < 32);
                                    assert(e0.len() == 6);
                                    assert(j >= cur + 7);
                                    assert(s[cur + 2] == '0' && s[cur + 3] == '0');
                                    assert(s[cur + 4] == spec_hex_digit(n as int / 16));
                                    assert(s[cur + 5] == spec_hex_digit(n as int % 16));
                                    assert(enough);
                                    assert(ok0);
                                    if let Some(d1) = v1 {
                                        if let Some(d2) = v2 {
                                            lemma_hex_digit_injective(
                                                d1 as int,
                                                n as int / 16,
                                            );
                                            lemma_hex_digit_injective(
                                                d2 as int,
                                                n as int % 16,
                                            );
                                            assert(16 * d1 + d2 == n) by (nonlinear_arith)
                                                requires
                                                    d1 == n / 16,
                                                    d2 == n % 16,
                                                    n < 32,
                                            ;
                                            assert(false);
                                        } else {
                                            assert(false);
                                        }
                                    } else {
                                        assert(false);
                                    }
                                }
                            }
                        }
                        lemma_no_cont_back(s, start as int, cur as int, out@);
                    }
                    return None;
                }
                let e = ctrl_char(v);
                let ghost out_pre = out@;
                out.push(e);
                proof {
                    lemma_escape_push(out_pre, e);
                    assert(out@ == out_pre.push(e));
                    let d1 = v1->Some_0;
                    let d2 = v2->Some_0;
                    assert((e as u32) / 16 == d1 && (e as u32) % 16 == d2)
                        by (nonlinear_arith)
                        requires
                            (e as u32) == 16 * d1 + d2,
                            d1 < 16,
                            d2 < 16,
                    ;
                    assert(spec_escape_char(e) =~= seq![
                        s[cur as int],
                        s[cur + 1],
                        s[cur + 2],
                        s[cur + 3],
                        s[cur + 4],
                        s[cur + 5],
                    ]);
                    assert(s.subrange(cur as int, cur + 6) =~= seq![
                        s[cur as int],
                        s[cur + 1],
                        s[cur + 2],
                        s[cur + 3],
                        s[cur + 4],
                        s[cur + 5],
                    ]);
                    assert(s.subrange(start as int, cur + 6) =~= s.subrange(
                        start as int,
                        cur as int,
                    ) + s.subrange(cur as int, cur + 6));
                    assert(s.subrange(start as int, cur + 6) == spec_escape(out@));
                }
                cur = cur + 6;
            } else {
                proof {
                    assert forall|t2: Seq<char>, j: int| !spec_cont_at(s, cur as int, j, t2) by {
                        if spec_cont_at(s, cur as int, j, t2) {
                            if t2.len() == 0 {
                                assert(s.subrange(cur as int, j)[0] == s[cur as int]);
                                assert((spec_escape(t2) + seq!['"'])[0] == '"');
                            } else {
                                lemma_cont_shape(s, cur as int, j, t2);
                                lemma_escape_char_shape(t2[0]);
                                let e0 = spec_escape_char(t2[0]);
                                assert(e0[0] == '\\');
                                assert(e0[1] == '"' || e0[1] == '\\' || e0[1] == 'u');
                                assert(s[cur + 1] == e0[1]);
                            }
                        }
                    }
                    lemma_no_cont_back(s, start as int, cur as int, out@);
                }
                return None;
            }
        } else {
            let v = c as u32;
            if v < 32 {
                proof {
                    assert forall|t2: Seq<char>, j: int| !spec_cont_at(s, cur as int, j, t2) by {
                        if spec_cont_at(s, cur as int, j, t2) {
                            if t2.len() == 0 {
                                assert(s.subrange(cur as int, j)[0] == s[cur as int]);
                                assert((spec_escape(t2) + seq!['"'])[0] == '"');
                            } else {
                                lemma_cont_shape(s, cur as int, j, t2);
                                lemma_escape_char_shape(t2[0]);
                                let e0 = spec_escape_char(t2[0]);
                                assert(s[cur as int] == e0[0]);
                                assert(e0[0] == '\\' || (e0[0] as u32) >= 32);
                            }
                        }
                    }
                    lemma_no_cont_back(s, start as int, cur as int, out@);
                }
                return None;
            }
            let ghost out_pre = out@;
            out.push(c);
            proof {
                lemma_escape_push(out_pre, c);
                assert(out@ == out_pre.push(c));
                assert(spec_escape_char(c) =~= seq![s[cur as int]]);
                assert(s.subrange(cur as int, cur + 1) =~= seq![s[cur as int]]);
                assert(s.subrange(start as int, cur + 1) =~= s.subrange(
                    start as int,
                    cur as int,
                ) + s.subrange(cur as int, cur + 1));
                assert(s.subrange(start as int, cur + 1) == spec_escape(out@));
            }
            cur = cur + 1;
        }
    }
}

/// Compares `pat` against `cs` at position `i`: the position after the match,
/// or `None` exactly when `pat` does not stand there.
fn match_at(cs: &Vec<char>, i: usize, pat: &Vec<char>) -> (r: Option<usize>)
    requires
        i <= cs@.len(),
    ensures
        match r {
            Some(j) => j == i + pat@.len() && j <= cs@.len() && cs@.subrange(i as int, j as int)
                == pat@,
            None => !(i + pat@.len() <= cs@.len() && cs@.subrange(i as int, i + pat@.len())
                == pat@),
        },
{
    let n = pat.len();
    let total = cs.len();
    if total - i < n {
        return None;
    }
    let mut k: usize = 0;
    while k < n
        invariant
            total == cs@.len(),
            i + n <= total,
            k <= n,
            n == pat@.len(),
            forall|q: int| 0 <= q < k ==> cs@[i + q] == pat@[q],
        decreases n - k,
    {
        if cs[i + k] != pat[k] {
            proof {
                assert(cs@.subrange(i as int, i + pat@.len())[k as int] == cs@[i + k]);
            }
            return None;
        }
        k = k + 1;
    }
    proof {
        assert(cs@.subrange(i as int, (i + n) as int) =~= pat@);
    }
    Some(i + n)
}

/// The characters of `{"message_type":`.
fn lit_head_vec() -> (r: Vec<char>)
    ensures
        r@ == spec_lit_head(),
{
    let mut v: Vec<char> = Vec::new();
    push_lit_head(&mut v);
    proof {
        assert(v@ =~= spec_lit_head());
    }
    v
}

/// The characters of `,"username":`.
fn lit_user_vec() -> (r: Vec<char>)
    ensures
        r@ == spec_lit_user(),
{
    let mut v: Vec<char> = Vec::new();
    push_lit_user(&mut v);
    proof {
        assert(v@ =~= spec_lit_user());
    }
    v
}

/// The characters of `,"content":"`.
fn lit_content_vec() -> (r: Vec<char>)
    ensures
        r@ == spec_lit_content(),
{
    let mut v: Vec<char> = Vec::new();
    push_lit_content(&mut v);
    proof {
        assert(v@ =~= spec_lit_content());
    }
    v
}

/// The characters of `null`.
fn lit_null_vec() -> (r: Vec<char>)
    ensures
        r@ == spec_user_tok(None),
{
    let mut v: Vec<char> = Vec::new();
    v.push('n');
    v.push('u');
    v.push('l');
    v.push('l');
    proof {
        assert(v@ =~= spec_user_tok(None));
    }
    v
}

/// The characters of the keyword of `k`.
fn kind_tok_vec(k: ChatMessageType) -> (r: Vec<char>)
    ensures
        r@ == spec_kind_tok(k),
{
    let mut v: Vec<char> = Vec::new();
    push_kind_tok(&mut v, k);
    proof {
        assert(v@ =~= spec_kind_tok(k));
    }
    v
}

/// If the keyword of `k` stands at position 16 of an encoded envelope, the
/// envelope's kind is `k`, and the rest of the line follows it.
proof fn lemma_pin_kind(sv: Seq<char>, mv: ChatMessageView, k: ChatMessageType, p2: int)
    requires
        sv == spec_encode(mv),
        p2 == 16 + spec_kind_tok(k).len(),
        p2 <= sv.len(),
        sv.subrange(16, p2) == spec_kind_tok(k),
    ensures
        mv.message_type == k,
        sv.skip(p2) == spec_lit_user() + spec_user_tok(mv.username) + spec_lit_content()
            + spec_escape(mv.content) + seq!['"', '}'],
{
    let restmv = spec_lit_user() + spec_user_tok(mv.username) + spec_lit_content() + spec_escape(
        mv.content,
    ) + seq!['"', '}'];
    assert(sv =~= spec_lit_head() + (spec_kind_tok(mv.message_type) + restmv));
    lemma_split_at(sv, 0, 16);
    assert(sv.skip(0) =~= sv);
    lemma_concat_parts(
        spec_lit_head(),
        spec_kind_tok(mv.message_type) + restmv,
        sv.subrange(0, 16),
        sv.skip(16),
    );
    lemma_split_at(sv, 16, p2);
    lemma_concat_parts(
        spec_kind_tok(k),
        sv.skip(p2),
        spec_kind_tok(k),
        sv.skip(p2),
    );
    assert(spec_kind_tok(mv.message_type) + restmv == spec_kind_tok(k) + sv.skip(p2));
    lemma_kind_tok_unambig(mv.message_type, k, restmv, sv.skip(p2));
}

/// Every encoded envelope opens with `{"message_type":` and is long enough to
/// carry all its parts.
proof fn lemma_encode_head(sv: Seq<char>, mv: ChatMessageView)
    requires
        sv == spec_encode(mv),
    ensures
        sv.len() >= 16 + spec_kind_tok(mv.message_type).len() + 12 + spec_user_tok(
            mv.username,
        ).len() + 12 + spec_escape(mv.content).len() + 2,
        sv.subrange(0, 16) == spec_lit_head(),
        spec_kind_tok(mv.message_type).len() >= 6,
{
    let restmv = spec_kind_tok(mv.message_type) + (spec_lit_user() + spec_user_tok(mv.username)
        + spec_lit_content() + spec_escape(mv.content) + seq!['"', '}']);
    assert(sv =~= spec_lit_head() + restmv);
    lemma_split_at(sv, 0, 16);
    assert(sv.skip(0) =~= sv);
    lemma_concat_parts(spec_lit_head(), restmv, sv.subrange(0, 16), sv.skip(16));
}

/// If the sender field stands between `p3` and `p4` of an encoded envelope
/// whose line after the kind is known, the envelope's sender is that field,
/// and the rest of the line follows it.
proof fn lemma_pin_user(
    sv: Seq<char>,
    mv: ChatMessageView,
    u: Option<Seq<char>>,
    p3: int,
    p4: int,
)
    requires
        12 <= p3 <= p4 <= sv.len(),
        sv.skip(p3 - 12) == spec_lit_user() + spec_user_tok(mv.username) + spec_lit_content()
            + spec_escape(mv.content) + seq!['"', '}'],
        sv.subrange(p3, p4) == spec_user_tok(u),
    ensures
        mv.username == u,
        sv.skip(p4) == spec_lit_content() + spec_escape(mv.content) + seq!['"', '}'],
{
    let p2 = p3 - 12;
    let restc = spec_lit_content() + spec_escape(mv.content) + seq!['"', '}'];
    assert(sv.skip(p2) =~= spec_lit_user() + (spec_user_tok(mv.username) + restc));
    lemma_split_at(sv, p2, p3);
    lemma_concat_parts(
        spec_lit_user(),
        spec_user_tok(mv.username) + restc,
        sv.subrange(p2, p3),
        sv.skip(p3),
    );
    lemma_split_at(sv, p3, p4);
    assert(spec_user_tok(u) + sv.skip(p4) == spec_user_tok(mv.username) + restc);
    lemma_user_tok_unambig(u, mv.username, sv.skip(p4), restc);
}

/// If an escaped payload with its closing quote stands between `p5` and `p6`
/// of an encoded envelope whose tail is known, the payload is the envelope's
/// body and only the closing brace follows it.
proof fn lemma_pin_content(sv: Seq<char>, mv: ChatMessageView, body: Seq<char>, p5: int, p6: int)
    requires
        12 <= p5 <= p6 <= sv.len(),
        sv.skip(p5 - 12) == spec_lit_content() + spec_escape(mv.content) + seq!['"', '}'],
        sv.subrange(p5, p6) == spec_escape(body) + seq!['"'],
    ensures
        mv.content == body,
        sv.skip(p6) == seq!['}'],
{
    let p4 = p5 - 12;
    let tailc = spec_escape(mv.content) + seq!['"'] + seq!['}'];
    assert(sv.skip(p4) =~= spec_lit_content() + tailc);
    lemma_split_at(sv, p4, p5);
    lemma_concat_parts(spec_lit_content(), tailc, sv.subrange(p4, p5), sv.skip(p5));
    lemma_split_at(sv, p5, p6);
    assert(spec_escape(body) + seq!['"'] + sv.skip(p6) =~= (spec_escape(body) + seq!['"'])
        + sv.skip(p6));
    assert(spec_escape(body) + seq!['"'] + sv.skip(p6) == tailc);
    lemma_escaped_string_unique(body, sv.skip(p6), mv.content, seq!['}']);
}

/// Encodes `m` as its one wire line, without the line terminator.
pub fn encode_envelope(m: &ChatMessage) -> (r: String)
    ensures
        r@ == spec_encode(m@),
{
    let mut out: Vec<char> = Vec::new();
    push_lit_head(&mut out);
    push_kind_tok(&mut out, m.message_type);
    push_lit_user(&mut out);
    match &m.username {
        None => {
            out.push('n');
            out.push('u');
            out.push('l');
            out.push('l');
        },
        Some(name) => {
            out.push('"');
            push_escaped(&mut out, name.as_str());
            out.push('"');
        },
    }
    push_lit_content(&mut out);
    push_escaped(&mut out, m.content.as_str());
    out.push('"');
    out.push('}');
    proof {
        assert(out@ =~= spec_encode(m@));
    }
    chars_to_string(&out)
}

/// The keyword of an encoded envelope's kind stands at position 16.
proof fn lemma_encode_kind_at(sv: Seq<char>, mv: ChatMessageView)
    requires
        sv == spec_encode(mv),
    ensures
        16 + spec_kind_tok(mv.message_type).len() <= sv.len(),
        sv.subrange(16, 16 + spec_kind_tok(mv.message_type).len() as int) == spec_kind_tok(
            mv.message_type,
        ),
{
    lemma_encode_head(sv, mv);
    let tk = spec_kind_tok(mv.message_type);
    let rest = spec_lit_user() + spec_user_tok(mv.username) + spec_lit_content() + spec_escape(
        mv.content,
    ) + seq!['"', '}'];
    assert(sv =~= spec_lit_head() + (tk + rest));
    lemma_split_at(sv, 0, 16);
    assert(sv.skip(0) =~= sv);
    lemma_concat_parts(spec_lit_head(), tk + rest, sv.subrange(0, 16), sv.skip(16));
    lemma_split_at(sv, 16, 16 + tk.len() as int);
    lemma_concat_parts(
        tk,
        rest,
        sv.subrange(16, 16 + tk.len() as int),
        sv.skip(16 + tk.len() as int),
    );
}

/// A known tail that opens with an escaped payload and its closing quote is a
/// continuation in the sense of `spec_cont_at`.
proof fn lemma_tail_to_cont(sv: Seq<char>, p: int, t: Seq<char>, rest: Seq<char>)
    requires
        0 <= p <= sv.len(),
        sv.skip(p) == spec_escape(t) + seq!['"'] + rest,
    ensures
        spec_cont_at(sv, p, p + spec_escape(t).len() + 1, t),
{
    let j = p + spec_escape(t).len() + 1;
    assert(sv.skip(p).len() == sv.len() - p);
    assert((spec_escape(t) + seq!['"'] + rest).len() == spec_escape(t).len() + 1 + rest.len());
    assert(j <= sv.len());
    assert(sv.subrange(p, j) =~= spec_escape(t) + seq!['"']) by {
        assert forall|k: int| 0 <= k < j - p implies sv.subrange(p, j)[k] == (spec_escape(t)
            + seq!['"'])[k] by {
            assert(sv.skip(p)[k] == sv[p + k]);
            assert(sv.subrange(p, j)[k] == sv[p + k]);
            assert((spec_escape(t) + seq!['"'] + rest)[k] == (spec_escape(t) + seq!['"'])[k]);
        }
    }
}

/// Reads the kind's keyword at position 16. `None` exactly when no kind's
/// keyword stands there.
fn decode_kind(cs: &Vec<char>) -> (r: Option<(ChatMessageType, usize)>)
    requires
        16 <= cs@.len(),
    ensures
        match r {
            Some(p) => p.1 == 16 + spec_kind_tok(p.0).len() && p.1 <= cs@.len() && cs@.subrange(
                16,
                p.1 as int,
            ) == spec_kind_tok(p.0),
            None => forall|k: ChatMessageType|
                !(16 + spec_kind_tok(k).len() <= cs@.len() && cs@.subrange(
                    16,
                    16 + spec_kind_tok(k).len() as int,
                ) == spec_kind_tok(k)),
        },
{
    let tok_m = kind_tok_vec(ChatMessageType::Message);
    let tok_j = kind_tok_vec(ChatMessageType::Join);
    let tok_l = kind_tok_vec(ChatMessageType::Leave);
    let tok_cl = kind_tok_vec(ChatMessageType::Command(CommandType::List));
    let tok_cq = kind_tok_vec(ChatMessageType::Command(CommandType::Quit));
    if let Some(j) = match_at(cs, 16, &tok_m) {
        return Some((ChatMessageType::Message, j));
    }
    if let Some(j) = match_at(cs, 16, &tok_j) {
        return Some((ChatMessageType::Join, j));
    }
    if let Some(j) = match_at(cs, 16, &tok_l) {
        return Some((ChatMessageType::Leave, j));
    }
    if let Some(j) = match_at(cs, 16, &tok_cl) {
        return Some((ChatMessageType::Command(CommandType::List), j));
    }
    if let Some(j) = match_at(cs, 16, &tok_cq) {
        return Some((ChatMessageType::Command(CommandType::Quit), j));
    }
    proof {
        assert forall|k: ChatMessageType|
            !(16 + spec_kind_tok(k).len() <= cs@.len() && cs@.subrange(
                16,
                16 + spec_kind_tok(k).len() as int,
            ) == spec_kind_tok(k)) by {
            match k {
                ChatMessageType::Message => {},
                ChatMessageType::Join => {},
                ChatMessageType::Leave => {},
                ChatMessageType::Command(CommandType::List) => {},
                ChatMessageType::Command(CommandType::Quit) => {},
            }
        }
    }
    None
}

/// Reads the sender field at `p3`. `None` exactly when no sender field
/// stands there.
fn decode_user(cs: &Vec<char>, p3: usize) -> (r: Option<(Option<String>, usize)>)
    requires
        p3 <= cs@.len(),
    ensures
        match r {
            Some(p) => p3 <= p.1 <= cs@.len() && cs@.subrange(p3 as int, p.1 as int)
                == spec_user_tok(opt_name_view(p.0)),
            None => forall|t: Option<Seq<char>>|
                !(p3 + spec_user_tok(t).len() <= cs@.len() && cs@.subrange(
                    p3 as int,
                    p3 + spec_user_tok(t).len() as int,
                ) == spec_user_tok(t)),
        },
{
    let ghost sv = cs@;
    let n = cs.len();
    if p3 == n {
        proof {
            assert forall|t: Option<Seq<char>>|
                !(p3 + spec_user_tok(t).len() <= sv.len() && sv.subrange(
                    p3 as int,
                    p3 + spec_user_tok(t).len() as int,
                ) == spec_user_tok(t)) by {
                match t {
                    None => {},
                    Some(x) => {
                        assert(spec_user_tok(t) =~= seq!['"'] + (spec_escape(x) + seq!['"']));
                        assert(spec_user_tok(t).len() >= 2);
                    },
                }
            }
        }
        return None;
    }
    let c = cs[p3];
    if c == 'n' {
        let null_tok = lit_null_vec();
        match match_at(cs, p3, &null_tok) {
            Some(j) => {
                return Some((None, j));
            },
            None => {
                proof {
                    assert forall|t: Option<Seq<char>>|
                        !(p3 + spec_user_tok(t).len() <= sv.len() && sv.subrange(
                            p3 as int,
                            p3 + spec_user_tok(t).len() as int,
                        ) == spec_user_tok(t)) by {
                        if p3 + spec_user_tok(t).len() <= sv.len() && sv.subrange(
                            p3 as int,
                            p3 + spec_user_tok(t).len() as int,
                        ) == spec_user_tok(t) {
                            assert(sv.subrange(p3 as int, p3 + spec_user_tok(t).len() as int)[0]
                                == sv[p3 as int]);
                            match t {
                                None => {},
                                Some(x) => {
                                    assert(spec_user_tok(t) =~= seq!['"'] + (spec_escape(x)
                                        + seq!['"']));
                                    assert(spec_user_tok(t)[0] == '"');
                                    assert(false);
                                },
                            }
                        }
                    }
                }
                return None;
            },
        }
    } else if c == '"' {
        match parse_string(cs, p3 + 1) {
            Some((uname, j)) => {
                let user = chars_to_string(&uname);
                proof {
                    assert(sv.subrange(p3 as int, j as int) =~= seq![sv[p3 as int]] + sv.subrange(
                        p3 + 1,
                        j as int,
                    ));
                    assert(spec_user_tok(Some(uname@)) =~= seq!['"'] + (spec_escape(uname@)
                        + seq!['"']));
                    assert(sv.subrange(p3 as int, j as int) == spec_user_tok(Some(uname@)));
                }
                return Some((Some(user), j));
            },
            None => {
                proof {
                    assert forall|t: Option<Seq<char>>|
                        !(p3 + spec_user_tok(t).len() <= sv.len() && sv.subrange(
                            p3 as int,
                            p3 + spec_user_tok(t).len() as int,
                        ) == spec_user_tok(t)) by {
                        let tl = spec_user_tok(t).len();
                        if p3 + tl <= sv.len() && sv.subrange(p3 as int, p3 + tl)
                            == spec_user_tok(t) {
                            assert(sv.subrange(p3 as int, p3 + tl)[0] == sv[p3 as int]);
                            match t {
                                None => {
                                    assert(spec_user_tok(t)[0] == 'n');
                                    assert(false);
                                },
                                Some(x) => {
                                    assert(spec_user_tok(t) =~= seq!['"'] + (spec_escape(x)
                                        + seq!['"']));
                                    assert(sv.subrange(p3 + 1, p3 + tl) =~= spec_escape(x)
                                        + seq!['"']) by {
                                        assert forall|q: int| 0 <= q < tl - 1 implies sv.subrange(
                                            p3 + 1,
                                            p3 + tl,
                                        )[q] == (spec_escape(x) + seq!['"'])[q] by {
                                            assert(sv.subrange(p3 as int, p3 + tl)[q + 1]
                                                == sv[p3 + 1 + q]);
                                            assert(sv.subrange(p3 + 1, p3 + tl)[q] == sv[p3 + 1
                                                + q]);
                                            assert((seq!['"'] + (spec_escape(x) + seq!['"']))[q
                                                + 1] == (spec_escape(x) + seq!['"'])[q]);
                                        }
                                    }
                                    assert(spec_cont_at(sv, p3 + 1, p3 + tl, x));
                                    assert(false);
                                },
                            }
                        }
                    }
                }
                return None;
            },
        }
    } else {
        proof {
            assert forall|t: Option<Seq<char>>|
                !(p3 + spec_user_tok(t).len() <= sv.len() && sv.subrange(
                    p3 as int,
                    p3 + spec_user_tok(t).len() as int,
                ) == spec_user_tok(t)) by {
                if p3 + spec_user_tok(t).len() <= sv.len() && sv.subrange(
                    p3 as int,
                    p3 + spec_user_tok(t).len() as int,
                ) == spec_user_tok(t) {
                    assert(sv.subrange(p3 as int, p3 + spec_user_tok(t).len() as int)[0]
                        == sv[p3 as int]);
                    match t {
                        None => {
                            assert(spec_user_tok(t)[0] == 'n');
                        },
                        Some(x) => {
                            assert(spec_user_tok(t) =~= seq!['"'] + (spec_escape(x) + seq!['"']));
                            assert(spec_user_tok(t)[0] == '"');
                        },
                    }
                }
            }
        }
        return None;
    }
}

/// The facts the decoder has after reading the kind's keyword: the keyword
/// of `k` ends at `p2`.
pub open spec fn spec_kind_stage(sv: Seq<char>, k: ChatMessageType, p2: int) -> bool {
    &&& p2 == 16 + spec_kind_tok(k).len()
    &&& p2 <= sv.len()
    &&& sv.subrange(16, p2) == spec_kind_tok(k)
}

/// No line whose `,"username":` separator is missing after the kind is an
/// encoded envelope.
proof fn lemma_no_sep_user(sv: Seq<char>, k: ChatMessageType, p2: int)
    requires
        0 <= p2,
        spec_kind_stage(sv, k, p2),
        !(p2 + 12 <= sv.len() && sv.subrange(p2, p2 + 12) == spec_lit_user()),
    ensures
        forall|mv: ChatMessageView| sv != spec_encode(mv),
{
    assert forall|mv: ChatMessageView| sv != spec_encode(mv) by {
        if sv == spec_encode(mv) {
            lemma_pin_kind(sv, mv, k, p2);
            let rest = spec_user_tok(mv.username) + spec_lit_content() + spec_escape(mv.content)
                + seq!['"', '}'];
            assert(sv.skip(p2) =~= spec_lit_user() + rest);
            assert(sv.skip(p2).len() == sv.len() - p2);
            assert(p2 + 12 <= sv.len());
            lemma_split_at(sv, p2, p2 + 12);
            lemma_concat_parts(spec_lit_user(), rest, sv.subrange(p2, p2 + 12), sv.skip(p2 + 12));
        }
    }
}

/// From an encoded envelope with its kind pinned, the sender field stands
/// right after the `,"username":` separator.
proof fn lemma_user_field_at(sv: Seq<char>, mv: ChatMessageView, k: ChatMessageType, p2: int, p3: int)
    requires
        0 <= p2,
        sv == spec_encode(mv),
        spec_kind_stage(sv, k, p2),
        p3 == p2 + 12,
        p3 <= sv.len(),
        sv.subrange(p2, p3) == spec_lit_user(),
    ensures
        p3 + spec_user_tok(mv.username).len() <= sv.len(),
        sv.subrange(p3, p3 + spec_user_tok(mv.username).len() as int) == spec_user_tok(
            mv.username,
        ),
{
    lemma_pin_kind(sv, mv, k, p2);
    let rest = spec_user_tok(mv.username) + spec_lit_content() + spec_escape(mv.content)
        + seq!['"', '}'];
    assert(sv.skip(p2) =~= spec_lit_user() + rest);
    lemma_split_at(sv, p2, p3);
    lemma_concat_parts(spec_lit_user(), rest, sv.subrange(p2, p3), sv.skip(p3));
    let rest2 = spec_lit_content() + spec_escape(mv.content) + seq!['"', '}'];
    assert(sv.skip(p3) =~= spec_user_tok(mv.username) + rest2);
    assert(sv.skip(p3).len() == sv.len() - p3);
    assert(p3 + spec_user_tok(mv.username).len() <= sv.len());
    lemma_split_at(sv, p3, p3 + spec_user_tok(mv.username).len() as int);
    lemma_concat_parts(
        spec_user_tok(mv.username),
        rest2,
        sv.subrange(p3, p3 + spec_user_tok(mv.username).len() as int),
        sv.skip(p3 + spec_user_tok(mv.username).len() as int),
    );
}

/// No line without a readable sender field is an encoded envelope.
proof fn lemma_no_user(sv: Seq<char>, k: ChatMessageType, p2: int, p3: int)
    requires
        0 <= p2,
        spec_kind_stage(sv, k, p2),
        p3 == p2 + 12,
        p3 <= sv.len(),
        sv.subrange(p2, p3) == spec_lit_user(),
        forall|t: Option<Seq<char>>|
            !(p3 + spec_user_tok(t).len() <= sv.len() && sv.subrange(
                p3,
                p3 + spec_user_tok(t).len() as int,
            ) == spec_user_tok(t)),
    ensures
        forall|mv: ChatMessageView| sv != spec_encode(mv),
{
    assert forall|mv: ChatMessageView| sv != spec_encode(mv) by {
        if sv == spec_encode(mv) {
            lemma_user_field_at(sv, mv, k, p2, p3);
        }
    }
}

/// No line whose `,"content":"` separator is missing after the sender is an
/// encoded envelope.
proof fn lemma_no_sep_content(
    sv: Seq<char>,
    k: ChatMessageType,
    p2: int,
    p3: int,
    u: Option<Seq<char>>,
    p4: int,
)
    requires
        0 <= p2,
        spec_kind_stage(sv, k, p2),
        p3 == p2 + 12,
        p3 <= p4 <= sv.len(),
        sv.subrange(p2, p3) == spec_lit_user(),
        sv.subrange(p3, p4) == spec_user_tok(u),
        !(p4 + 12 <= sv.len() && sv.subrange(p4, p4 + 12) == spec_lit_content()),
    ensures
        forall|mv: ChatMessageView| sv != spec_encode(mv),
{
    assert forall|mv: ChatMessageView| sv != spec_encode(mv) by {
        if sv == spec_encode(mv) {
            lemma_pin_kind(sv, mv, k, p2);
            lemma_pin_user(sv, mv, u, p3, p4);
            let rest = spec_escape(mv.content) + seq!['"', '}'];
            assert(sv.skip(p4) =~= spec_lit_content() + rest);
            assert(sv.skip(p4).len() == sv.len() - p4);
            assert(p4 + 12 <= sv.len());
            lemma_split_at(sv, p4, p4 + 12);
            lemma_concat_parts(spec_lit_content(), rest, sv.subrange(p4, p4 + 12), sv.skip(p4 + 12));
        }
    }
}

/// No line without a readable payload after `,"content":"` is an encoded
/// envelope.
proof fn lemma_no_body(
    sv: Seq<char>,
    k: ChatMessageType,
    p2: int,
    p3: int,
    u: Option<Seq<char>>,
    p4: int,
    p5: int,
)
    requires
        0 <= p2,
        spec_kind_stage(sv, k, p2),
        p3 == p2 + 12,
        p3 <= p4 <= sv.len(),
        sv.subrange(p2, p3) == spec_lit_user(),
        sv.subrange(p3, p4) == spec_user_tok(u),
        p5 == p4 + 12,
        p5 <= sv.len(),
        sv.subrange(p4, p5) == spec_lit_content(),
        forall|t: Seq<char>, j: int| !spec_cont_at(sv, p5, j, t),
    ensures
        forall|mv: ChatMessageView| sv != spec_encode(mv),
{
    assert forall|mv: ChatMessageView| sv != spec_encode(mv) by {
        if sv == spec_encode(mv) {
            lemma_pin_kind(sv, mv, k, p2);
            lemma_pin_user(sv, mv, u, p3, p4);
            let rest = spec_escape(mv.content) + seq!['"', '}'];
            assert(sv.skip(p4) =~= spec_lit_content() + rest);
            lemma_split_at(sv, p4, p5);
            lemma_concat_parts(spec_lit_content(), rest, sv.subrange(p4, p5), sv.skip(p5));
            assert(sv.skip(p5) =~= spec_escape(mv.content) + seq!['"'] + seq!['}']);
            lemma_tail_to_cont(sv, p5, mv.content, seq!['}']);
        }
    }
}

/// No line with anything but a single closing brace after its payload is an
/// encoded envelope.
proof fn lemma_no_close(
    sv: Seq<char>,
    k: ChatMessageType,
    p2: int,
    p3: int,
    u: Option<Seq<char>>,
    p4: int,
    p5: int,
    body: Seq<char>,
    p6: int,
)
    requires
        0 <= p2,
        spec_kind_stage(sv, k, p2),
        p3 == p2 + 12,
        p3 <= p4 <= sv.len(),
        sv.subrange(p2, p3) == spec_lit_user(),
        sv.subrange(p3, p4) == spec_user_tok(u),
        p5 == p4 + 12,
        p5 <= p6 <= sv.len(),
        sv.subrange(p4, p5) == spec_lit_content(),
        sv.subrange(p5, p6) == spec_escape(body) + seq!['"'],
        !(p6 < sv.len() && sv[p6] == '}' && p6 + 1 == sv.len()),
    ensures
        forall|mv: ChatMessageView| sv != spec_encode(mv),
{
    assert forall|mv: ChatMessageView| sv != spec_encode(mv) by {
        if sv == spec_encode(mv) {
            lemma_pin_kind(sv, mv, k, p2);
            lemma_pin_user(sv, mv, u, p3, p4);
            lemma_pin_content(sv, mv, body, p5, p6);
            assert(sv.skip(p6).len() == sv.len() - p6);
            assert(sv.len() == p6 + 1);
            assert(sv.skip(p6)[0] == sv[p6]);
            assert(sv[p6] == '}');
        }
    }
}

/// A line read through all the decoder's stages is exactly the encoding of
/// the envelope those stages produced.
#[verifier::rlimit(50)]
proof fn lemma_assemble(
    sv: Seq<char>,
    k: ChatMessageType,
    p2: int,
    p3: int,
    u: Option<Seq<char>>,
    p4: int,
    p5: int,
    body: Seq<char>,
    p6: int,
)
    requires
        sv.subrange(0, 16) == spec_lit_head(),
        spec_kind_stage(sv, k, p2),
        p3 == p2 + 12,
        p3 <= p4 <= sv.len(),
        sv.subrange(p2, p3) == spec_lit_user(),
        sv.subrange(p3, p4) == spec_user_tok(u),
        p5 == p4 + 12,
        p5 <= p6 <= sv.len(),
        sv.subrange(p4, p5) == spec_lit_content(),
        sv.subrange(p5, p6) == spec_escape(body) + seq!['"'],
        p6 + 1 == sv.len(),
        sv[p6] == '}',
    ensures
        sv == spec_encode(
            ChatMessageView { message_type: k, username: u, content: body },
        ),
{
    let mv = ChatMessageView { message_type: k, username: u, content: body };
    assert(sv.subrange(p6, sv.len() as int) =~= seq!['}']);
    assert(sv =~= sv.subrange(0, 16) + sv.subrange(16, p2) + sv.subrange(p2, p3) + sv.subrange(
        p3,
        p4,
    ) + sv.subrange(p4, p5) + sv.subrange(p5, p6) + sv.subrange(p6, sv.len() as int));
    assert(spec_encode(mv) =~= spec_lit_head() + spec_kind_tok(k) + spec_lit_user()
        + spec_user_tok(u) + spec_lit_content() + (spec_escape(body) + seq!['"']) + seq!['}']);
    assert(sv == spec_encode(mv));
}

/// Decodes one wire line given as characters: the envelope whose encoding
/// is exactly `cs`, and `None` exactly when `cs` is no envelope's encoding.
pub fn decode_chars(cs: &Vec<char>) -> (r: Option<ChatMessage>)
    ensures
        match r {
            Some(m) => cs@ == spec_encode(m@),
            None => forall|mv: ChatMessageView| cs@ != spec_encode(mv),
        },
{
    let ghost sv = cs@;
    let n = cs.len();

    // the opening `{"message_type":`
    let head = lit_head_vec();
    let p1 = match match_at(cs, 0, &head) {
        Some(j) => j,
        None => {
            proof {
                assert forall|mv: ChatMessageView| sv != spec_encode(mv) by {
                    if sv == spec_encode(mv) {
                        lemma_encode_head(sv, mv);
                    }
                }
            }
            return None;
        },
    };

    // the kind's keyword
    let (kind, p2) = match decode_kind(cs) {
        Some(kp) => kp,
        None => {
            proof {
                assert forall|mv: ChatMessageView| sv != spec_encode(mv) by {
                    if sv == spec_encode(mv) {
                        lemma_encode_kind_at(sv, mv);
                    }
                }
            }
            return None;
        },
    };

    // `,"username":`
    let sep_user = lit_user_vec();
    let p3 = match match_at(cs, p2, &sep_user) {
        Some(j) => j,
        None => {
            proof {
                lemma_no_sep_user(sv, kind, p2 as int);
            }
            return None;
        },
    };

    // the sender field
    let (user, p4) = match decode_user(cs, p3) {
        Some(up) => up,
        None => {
            proof {
                lemma_no_user(sv, kind, p2 as int, p3 as int);
            }
            return None;
        },
    };

    // `,"content":"`
    let sep_content = lit_content_vec();
    let p5 = match match_at(cs, p4, &sep_content) {
        Some(j) => j,
        None => {
            proof {
                lemma_no_sep_content(
                    sv,
                    kind,
                    p2 as int,
                    p3 as int,
                    opt_name_view(user),
                    p4 as int,
                );
            }
            return None;
        },
    };

    // the payload
    let (body, p6) = match parse_string(cs, p5) {
        Some(bp) => bp,
        None => {
            proof {
                lemma_no_body(
                    sv,
                    kind,
                    p2 as int,
                    p3 as int,
                    opt_name_view(user),
                    p4 as int,
                    p5 as int,
                );
            }
            return None;
        },
    };

    // the closing brace, and nothing after it
    let closed = p6 < n && cs[p6] == '}' && p6 + 1 == n;
    if !closed {
        proof {
            lemma_no_close(
                sv,
                kind,
                p2 as int,
                p3 as int,
                opt_name_view(user),
                p4 as int,
                p5 as int,
                body@,
                p6 as int,
            );
        }
        return None;
    }

    proof {
        lemma_assemble(
            sv,
            kind,
            p2 as int,
            p3 as int,
            opt_name_view(user),
            p4 as int,
            p5 as int,
            body@,
            p6 as int,
        );
    }
    let m = ChatMessage { message_type: kind, username: user, content: chars_to_string(&body) };
    Some(m)
}

/// Decodes one wire line: the envelope whose encoding is exactly `s`, and
/// `None` exactly when `s` is no envelope's encoding.
pub fn decode_envelope(s: &str) -> (r: Option<ChatMessage>)
    ensures
        match r {
            Some(m) => s@ == spec_encode(m@),
            None => forall|mv: ChatMessageView| s@ != spec_encode(mv),
        },
{
    let cs = str_to_chars(s);
    decode_chars(&cs)
}


/// Encodes `m` and ends the line: what is actually written to a connection.
pub fn wire_line(m: &ChatMessage) -> (r: String)
    ensures
        r@ == spec_encode(m@) + seq!['\n'],
{
    let mut r = encode_envelope(m);
    r.append("\n");
    proof {
        reveal_strlit("\n");
        assert(r@ =~= spec_encode(m@) + seq!['\n']);
    }
    r
}

} // verus!
