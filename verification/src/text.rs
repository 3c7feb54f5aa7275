//! Character-level string helpers shared by the parsers.

use vstd::prelude::*;
use vstd::utf8::{encode_scalar, encode_utf8, is_ascii_chars};

verus! {

broadcast use {vstd::string::group_string_axioms, vstd::slice::group_slice_axioms};

/// `String::push`: appends one character.
#[verifier::external_body]
pub(crate) fn push_char(s: &mut String, c: char)
    ensures
        final(s)@ == old(s)@.push(c),
{
    s.push(c);
}

/// The characters of `s`, in order.
pub fn chars_of(s: &str) -> (r: Vec<char>)
    ensures
        r@ == s@,
{
    let mut v: Vec<char> = Vec::new();
    for c in it: s.chars()
        invariant
            it.seq() == s@,
            v@ == it.seq().take(it.index() as int),
    {
        v.push(c);
    }
    v
}

/// The string made of `cs[from..to]`.
pub fn string_from(cs: &Vec<char>, from: usize, to: usize) -> (r: String)
    requires
        from <= to <= cs.len(),
    ensures
        r@ == cs@.subrange(from as int, to as int),
{
    let mut s = String::new();
    let mut i = from;
    while i < to
        invariant
            from <= i <= to <= cs.len(),
            s@ == cs@.subrange(from as int, i as int),
        decreases to - i,
    {
        push_char(&mut s, cs[i]);
        i = i + 1;
        assert(s@ =~= cs@.subrange(from as int, i as int));
    }
    s
}

/// True exactly when `a` and `b` hold the same characters.
pub(crate) fn str_eq(a: &str, b: &str) -> (r: bool)
    ensures
        r == (a@ == b@),
{
    let x = chars_of(a);
    let y = chars_of(b);
    if x.len() != y.len() {
        return false;
    }
    let mut i: usize = 0;
    while i < x.len()
        invariant
            x@ == a@,
            y@ == b@,
            x.len() == y.len(),
            0 <= i <= x.len(),
            forall|k: int| 0 <= k < i ==> x@[k] == y@[k],
        decreases x.len() - i,
    {
        if x[i] != y[i] {
            return false;
        }
        i = i + 1;
    }
    assert(a@ =~= b@);
    true
}

/// The characters of `s` after the prefix `p`, when `s` starts with `p`.
pub fn strip_prefix(s: &Vec<char>, p: &str) -> (r: Option<String>)
    ensures
        r is Some <==> p@.is_prefix_of(s@),
        r matches Some(v) ==> v@ == s@.skip(p@.len() as int),
{
    let pc = chars_of(p);
    if pc.len() > s.len() {
        return None;
    }
    let mut i: usize = 0;
    while i < pc.len()
        invariant
            pc@ == p@,
            pc.len() <= s.len(),
            0 <= i <= pc.len(),
            forall|k: int| 0 <= k < i ==> pc@[k] == s@[k],
        decreases pc.len() - i,
    {
        if pc[i] != s[i] {
            return None;
        }
        i = i + 1;
    }
    let rest = string_from(s, pc.len(), s.len());
    assert(s@.subrange(pc.len() as int, s.len() as int) =~= s@.skip(p@.len() as int));
    Some(rest)
}

/// `parts` joined with `sep` between neighbours.
pub open spec fn join_with(parts: Seq<Seq<char>>, sep: Seq<char>) -> Seq<char>
    decreases parts.len(),
{
    if parts.len() == 0 {
        Seq::empty()
    } else if parts.len() == 1 {
        parts[0]
    } else {
        join_with(parts.drop_last(), sep) + sep + parts.last()
    }
}

/// The views of a list of strings.
pub open spec fn views(parts: Seq<String>) -> Seq<Seq<char>> {
    parts.map_values(|s: String| s@)
}

/// `parts.join(sep)`.
pub fn join(parts: &Vec<String>, sep: &str) -> (r: String)
    ensures
        r@ == join_with(views(parts@), sep@),
{
    let mut r = String::new();
    let mut i: usize = 0;
    while i < parts.len()
        invariant
            0 <= i <= parts.len(),
            r@ == join_with(views(parts@).take(i as int), sep@),
        decreases parts.len() - i,
    {
        let ghost before = views(parts@).take(i as int);
        if i > 0 {
            r.append(sep);
        }
        r.append(parts[i].as_str());
        assert(views(parts@).take(i + 1).drop_last() =~= before);
        i = i + 1;
    }
    assert(views(parts@).take(parts.len() as int) =~= views(parts@));
    r
}

/// The number of bytes of the UTF-8 encoding of `cs`.
pub open spec fn utf8_len(cs: Seq<char>) -> nat {
    encode_utf8(cs).len()
}

/// The number of leading characters of `cs` whose encoding fits in `max`
/// bytes.
pub open spec fn fitting_chars(cs: Seq<char>, max: int) -> nat
    decreases cs.len(),
{
    if cs.len() == 0 {
        0
    } else if encode_scalar(cs[0] as u32).len() <= max {
        1 + fitting_chars(cs.drop_first(), max - encode_scalar(cs[0] as u32).len())
    } else {
        0
    }
}

/// Byte position `i` of the encoding of `cs` falls between two characters.
pub open spec fn is_char_boundary_at(cs: Seq<char>, i: int) -> bool {
    exists|k: int| 0 <= k <= cs.len() && utf8_len(cs.take(k)) == i
}

proof fn lemma_scalar_width(c: char)
    ensures
        1 <= encode_scalar(c as u32).len() <= 4,
{
    vstd::utf8::char_is_scalar(c);
}

/// The encoding of a concatenation is the concatenation of the encodings.
pub proof fn lemma_encode_utf8_append(a: Seq<char>, b: Seq<char>)
    ensures
        encode_utf8(a + b) == encode_utf8(a) + encode_utf8(b),
    decreases a.len(),
{
    if a.len() == 0 {
        assert(a + b =~= b);
        assert(encode_utf8(a) + encode_utf8(b) =~= encode_utf8(b));
    } else {
        assert((a + b).drop_first() =~= a.drop_first() + b);
        lemma_encode_utf8_append(a.drop_first(), b);
        assert(encode_utf8(a + b) =~= encode_utf8(a) + encode_utf8(b));
    }
}

proof fn lemma_utf8_len_take_step(cs: Seq<char>, i: int)
    requires
        0 <= i < cs.len(),
    ensures
        utf8_len(cs.take(i + 1)) == utf8_len(cs.take(i)) + encode_scalar(cs[i] as u32).len(),
{
    assert(cs.take(i + 1) =~= cs.take(i) + seq![cs[i]]);
    lemma_encode_utf8_append(cs.take(i), seq![cs[i]]);
    lemma_encode_single(cs[i]);
}

proof fn lemma_encode_single(c: char)
    ensures
        encode_utf8(seq![c]) == encode_scalar(c as u32),
{
    let one = seq![c];
    assert(one.len() == 1);
    assert(one[0] == c);
    assert(one.drop_first() =~= Seq::<char>::empty());
    assert(encode_utf8(Seq::<char>::empty()) == Seq::<u8>::empty());
    assert(encode_utf8(one) == encode_scalar(one[0] as u32) + encode_utf8(one.drop_first()));
    assert(encode_scalar(c as u32) + Seq::<u8>::empty() =~= encode_scalar(c as u32));
}

/// The encoding of a longer prefix is longer.
pub proof fn lemma_utf8_len_take_monotone(cs: Seq<char>, i: int, j: int)
    requires
        0 <= i <= j <= cs.len(),
    ensures
        utf8_len(cs.take(i)) + (j - i) <= utf8_len(cs.take(j)),
    decreases j - i,
{
    if i < j {
        lemma_utf8_len_take_monotone(cs, i, j - 1);
        lemma_utf8_len_take_step(cs, j - 1);
        lemma_scalar_width(cs[j - 1]);
    }
}

/// `fitting_chars` counts the longest prefix whose encoding fits.
pub proof fn lemma_fitting_chars(cs: Seq<char>, max: int)
    requires
        max >= 0,
    ensures
        fitting_chars(cs, max) <= cs.len(),
        utf8_len(cs.take(fitting_chars(cs, max) as int)) <= max,
        fitting_chars(cs, max) < cs.len() ==> utf8_len(cs.take(fitting_chars(cs, max) + 1 as int)) > max,
    decreases cs.len(),
{
    if cs.len() == 0 {
        assert(cs.take(0) =~= Seq::<char>::empty());
    } else {
        let w = encode_scalar(cs[0] as u32).len();
        assert(cs.take(0) =~= Seq::<char>::empty());
        lemma_utf8_len_take_step(cs, 0);
        if w <= max {
            let rest = cs.drop_first();
            lemma_fitting_chars(rest, max - w);
            let k = fitting_chars(rest, max - w) as int;
            assert(cs.take(k + 1) =~= seq![cs[0]] + rest.take(k));
            lemma_encode_utf8_append(seq![cs[0]], rest.take(k));
            lemma_encode_single(cs[0]);
            if k < rest.len() {
                assert(cs.take(k + 2) =~= seq![cs[0]] + rest.take(k + 1));
                lemma_encode_utf8_append(seq![cs[0]], rest.take(k + 1));
            }
        }
    }
}

/// A boundary at `i` is reached by exactly `fitting_chars(cs, i)`
/// characters.
pub proof fn lemma_boundary_fitting(cs: Seq<char>, i: int)
    requires
        i >= 0,
        is_char_boundary_at(cs, i),
    ensures
        utf8_len(cs.take(fitting_chars(cs, i) as int)) == i,
{
    let k = choose|k: int| 0 <= k <= cs.len() && utf8_len(cs.take(k)) == i;
    lemma_fitting_chars(cs, i);
    let f = fitting_chars(cs, i) as int;
    if f < k {
        lemma_utf8_len_take_monotone(cs, f + 1, k);
    } else if k < f {
        lemma_utf8_len_take_monotone(cs, k, f);
    }
}

/// `s` in lower case, as `str::to_lowercase` computes it.
pub uninterp spec fn lowercase(s: Seq<char>) -> Seq<char>;

/// `str::to_lowercase`: the Unicode lower case of `s`. Stated: the result
/// is a function of `s` alone, and on ASCII text it lowers the letters
/// A to Z and keeps every other character; the mapping of other
/// characters is left unsaid.
#[verifier::external_body]
pub(crate) fn to_lowercase(s: &str) -> (r: String)
    ensures
        r@ == lowercase(s@),
        is_ascii_chars(s@) ==> r@ == s@.map_values(|c: char| ascii_lower(c)),
{
    s.to_lowercase()
}

/// The number of bytes of `s`.
pub fn byte_len(s: &str) -> (n: usize)
    ensures
        n == utf8_len(s@),
{
    s.as_bytes().len()
}

/// The number of bytes of the UTF-8 encoding of `c`.
pub fn char_width(c: char) -> (w: usize)
    ensures
        w == encode_scalar(c as u32).len(),
{
    proof {
        vstd::utf8::char_is_scalar(c);
    }
    let v = c as u32;
    if v <= 0x7F {
        1
    } else if v <= 0x7FF {
        2
    } else if v <= 0xFFFF {
        3
    } else {
        4
    }
}

/// The number of leading characters of `s` whose encoding fits in `max`
/// bytes.
pub fn count_fitting(s: &str, max: usize) -> (k: usize)
    ensures
        k == fitting_chars(s@, max as int),
{
    let cs = chars_of(s);
    let mut i: usize = 0;
    let mut room: usize = max;
    assert(s@.skip(0) =~= s@);
    while i < cs.len()
        invariant
            cs@ == s@,
            0 <= i <= cs.len(),
            room <= max,
            fitting_chars(s@, max as int) == i + fitting_chars(s@.skip(i as int), room as int),
        decreases cs.len() - i,
    {
        let w = char_width(cs[i]);
        assert(s@.skip(i as int)[0] == cs@[i as int]);
        assert(s@.skip(i as int).drop_first() =~= s@.skip(i + 1));
        if w > room {
            return i;
        }
        room = room - w;
        i = i + 1;
    }
    assert(s@.skip(i as int) =~= Seq::<char>::empty());
    i
}

/// `pat` occurs in `s`.
pub open spec fn contains_seq(s: Seq<char>, pat: Seq<char>) -> bool {
    exists|i: int| 0 <= i <= s.len() - pat.len() && #[trigger] s.subrange(i, i + pat.len()) == pat
}

/// Whether `pat` occurs in `s` (`str::contains`).
pub fn contains(s: &str, pat: &str) -> (r: bool)
    ensures
        r == contains_seq(s@, pat@),
{
    let cs = chars_of(s);
    let ps = chars_of(pat);
    if ps.len() > cs.len() {
        return false;
    }
    let last = cs.len() - ps.len();
    let mut i: usize = 0;
    loop
        invariant
            cs@ == s@,
            ps@ == pat@,
            ps.len() <= cs.len(),
            last == cs.len() - ps.len(),
            0 <= i <= last,
            forall|k: int| 0 <= k < i ==> #[trigger] s@.subrange(k, k + pat@.len()) != pat@,
        decreases last - i,
    {
        let mut j: usize = 0;
        let mut same = true;
        while j < ps.len() && same
            invariant
                cs@ == s@,
                ps@ == pat@,
                i + ps.len() <= cs.len(),
                0 <= j <= ps.len(),
                same ==> forall|m: int| 0 <= m < j ==> cs@[i + m] == ps@[m],
                !same ==> s@.subrange(i as int, i + pat@.len()) != pat@,
            decreases ps.len() - j, if same { 1int } else { 0int },
        {
            if cs[i + j] != ps[j] {
                same = false;
                assert(s@.subrange(i as int, i + pat@.len())[j as int] == cs@[i + j]);
            } else {
                j = j + 1;
            }
        }
        if same {
            assert(s@.subrange(i as int, i + pat@.len()) =~= pat@);
            return true;
        }
        if i == last {
            return false;
        }
        i = i + 1;
    }
}

/// `c` in ASCII lower case.
pub open spec fn ascii_lower(c: char) -> char {
    if 'A' <= c <= 'Z' {
        ((c as u32) + 32) as char
    } else {
        c
    }
}

/// `a` and `b` are equal up to ASCII case.
pub open spec fn eq_ignore_ascii_case_spec(a: Seq<char>, b: Seq<char>) -> bool {
    a.len() == b.len() && forall|i: int| 0 <= i < a.len() ==> ascii_lower(a[i]) == ascii_lower(b[i])
}

fn lower_char(c: char) -> (r: char)
    ensures
        r == ascii_lower(c),
{
    if 'A' <= c && c <= 'Z' {
        let v = (c as u32) + 32;
        proof {
            vstd::utf8::char_u32_cast(c, c as u32);
        }
        char_from_ascii(v)
    } else {
        c
    }
}

/// The character of an ASCII code point.
fn char_from_ascii(v: u32) -> (c: char)
    requires
        v < 128,
    ensures
        c == v as char,
{
    let b = v as u8;
    b as char
}

/// `str::eq_ignore_ascii_case`.
pub fn eq_ignore_ascii_case(a: &str, b: &str) -> (r: bool)
    ensures
        r == eq_ignore_ascii_case_spec(a@, b@),
{
    let ac = chars_of(a);
    let bc = chars_of(b);
    if ac.len() != bc.len() {
        return false;
    }
    let mut i: usize = 0;
    while i < ac.len()
        invariant
            ac@ == a@,
            bc@ == b@,
            ac.len() == bc.len(),
            0 <= i <= ac.len(),
            forall|k: int| 0 <= k < i ==> ascii_lower(a@[k]) == ascii_lower(b@[k]),
        decreases ac.len() - i,
    {
        if lower_char(ac[i]) != lower_char(bc[i]) {
            return false;
        }
        i = i + 1;
    }
    true
}

} // verus!
