//! Text helpers: comparing strings, walking their characters, building them.

use vstd::prelude::*;

verus! {

/// `s` holds exactly the characters of `lit`.
pub fn text_is(s: &str, lit: &str) -> (r: bool)
    ensures
        r == (s@ == lit@),
{
    let a = s.to_owned();
    let b = lit.to_owned();
    a == b
}

/// The characters of `s`, in order.
pub fn chars_of(s: &str) -> (r: Vec<char>)
    ensures
        r@ == s@,
{
    broadcast use vstd::string::group_string_axioms;
    let mut out: Vec<char> = Vec::new();
    for c in it: s.chars()
        invariant
            it.seq() == s@,
            out@ == it.seq().take(it.index() as int),
    {
        proof {
            assert(it.seq().take(it.index() + 1) == it.seq().take(it.index() as int).push(c));
        }
        out.push(c);
    }
    proof {
        assert(s@.take(s@.len() as int) == s@);
    }
    out
}

/// Appends one character to a string (`String::push`).
#[verifier::external_body]
pub(crate) fn push_char(s: &mut String, c: char)
    ensures
        final(s)@ == old(s)@.push(c),
{
    s.push(c);
}

/// The string made of the characters of `cs`.
pub fn string_of(cs: &[char]) -> (r: String)
    ensures
        r@ == cs@,
{
    let mut out = String::new();
    let mut i: usize = 0;
    while i < cs.len()
        invariant
            i <= cs.len(),
            out@ == cs@.take(i as int),
        decreases cs.len() - i,
    {
        push_char(&mut out, cs[i]);
        proof {
            assert(cs@.take(i + 1) == cs@.take(i as int).push(cs@[i as int]));
        }
        i += 1;
    }
    proof {
        assert(cs@.take(cs@.len() as int) == cs@);
    }
    out
}

/// Unicode `White_Space`, the set `char::is_whitespace` tests.
pub open spec fn is_unicode_whitespace(c: char) -> bool {
    let u = c as u32;
    (0x9 <= u && u <= 0xd) || u == 0x20 || u == 0x85 || u == 0xa0 || u == 0x1680
        || (0x2000 <= u && u <= 0x200a) || u == 0x2028 || u == 0x2029 || u == 0x202f
        || u == 0x205f || u == 0x3000
}

/// Whether `c` is Unicode white space.
pub fn is_whitespace(c: char) -> (r: bool)
    ensures
        r == is_unicode_whitespace(c),
{
    let u = c as u32;
    (0x9 <= u && u <= 0xd) || u == 0x20 || u == 0x85 || u == 0xa0 || u == 0x1680
        || (0x2000 <= u && u <= 0x200a) || u == 0x2028 || u == 0x2029 || u == 0x202f
        || u == 0x205f || u == 0x3000
}

/// The maximal runs of `s` that hold no `sep`, in order (empty runs are dropped).
pub open spec fn words_of(s: Seq<char>, sep: char) -> Seq<Seq<char>>
    decreases s.len(),
{
    if s.len() == 0 {
        Seq::empty()
    } else {
        let w = words_of(s.drop_last(), sep);
        let c = s.last();
        if c == sep {
            w
        } else if s.len() >= 2 && s[s.len() - 2] != sep {
            w.update(w.len() - 1, w.last().push(c))
        } else {
            w.push(seq![c])
        }
    }
}

/// The words joined by single `sep` characters.
pub open spec fn join_with(ws: Seq<Seq<char>>, sep: char) -> Seq<char>
    decreases ws.len(),
{
    if ws.len() == 0 {
        Seq::empty()
    } else if ws.len() == 1 {
        ws[0]
    } else {
        join_with(ws.drop_last(), sep).push(sep) + ws.last()
    }
}

/// `s` with every run of `sep` collapsed to one and none at either end.
pub open spec fn collapsed(s: Seq<char>, sep: char) -> Seq<char> {
    join_with(words_of(s, sep), sep)
}

proof fn lemma_join_extend_last(ws: Seq<Seq<char>>, sep: char, c: char)
    requires
        ws.len() >= 1,
    ensures
        join_with(ws.update(ws.len() - 1, ws.last().push(c)), sep) == join_with(ws, sep).push(c),
{
    let w2 = ws.update(ws.len() - 1, ws.last().push(c));
    if ws.len() >= 2 {
        assert(w2.drop_last() == ws.drop_last());
        assert(join_with(ws.drop_last(), sep).push(sep) + ws.last().push(c)
            == (join_with(ws.drop_last(), sep).push(sep) + ws.last()).push(c));
    }
}

proof fn lemma_join_push(ws: Seq<Seq<char>>, sep: char, c: char)
    ensures
        join_with(ws.push(seq![c]), sep) == if ws.len() == 0 {
            seq![c]
        } else {
            join_with(ws, sep).push(sep).push(c)
        },
{
    let w2 = ws.push(seq![c]);
    assert(w2.drop_last() == ws);
    if ws.len() >= 1 {
        assert(join_with(ws, sep).push(sep) + seq![c] == join_with(ws, sep).push(sep).push(c));
    }
}

proof fn lemma_join_nonempty(ws: Seq<Seq<char>>, sep: char)
    requires
        ws.len() >= 1,
        ws.last().len() >= 1,
    ensures
        join_with(ws, sep).len() >= 1,
{
}

proof fn lemma_words_last_nonempty(s: Seq<char>, sep: char)
    ensures
        words_of(s, sep).len() >= 1 ==> words_of(s, sep).last().len() >= 1,
        words_of(s, sep).len() <= s.len(),
        s.len() >= 1 && s.last() != sep ==> words_of(s, sep).len() >= 1,
    decreases s.len(),
{
    if s.len() > 0 {
        lemma_words_last_nonempty(s.drop_last(), sep);
    }
}

/// The words of `s` are non-empty, hold no `sep`, and hold only characters of `s`.
pub proof fn lemma_words_shape(s: Seq<char>, sep: char)
    ensures
        forall|k: int| 0 <= k < words_of(s, sep).len() ==> (#[trigger] words_of(s, sep)[k]).len() > 0,
        forall|k: int, j: int|
            0 <= k < words_of(s, sep).len() && 0 <= j < words_of(s, sep)[k].len() ==> (#[trigger] words_of(s, sep)[k][j]) != sep
                && s.contains(words_of(s, sep)[k][j]),
    decreases s.len(),
{
    if s.len() > 0 {
        let t = s.drop_last();
        lemma_words_shape(t, sep);
        lemma_words_last_nonempty(t, sep);
        let w = words_of(t, sep);
        let c = s.last();
        assert forall|x: char| t.contains(x) implies s.contains(x) by {
            let i = choose|i: int| 0 <= i < t.len() && t[i] == x;
            assert(s[i] == x);
        }
        assert(s.contains(c)) by {
            assert(s[s.len() - 1] == c);
        }
        if c != sep && s.len() >= 2 && s[s.len() - 2] != sep {
            assert(t.last() == s[s.len() - 2]);
            let n = words_of(s, sep);
            assert forall|k: int, j: int|
                0 <= k < n.len() && 0 <= j < n[k].len() implies (#[trigger] n[k][j]) != sep && s.contains(n[k][j]) by {
                if k == n.len() - 1 && j == n[k].len() - 1 {
                } else if k == n.len() - 1 {
                    assert(n[k][j] == w[k][j]);
                }
            }
        } else if c != sep {
            let n = words_of(s, sep);
            assert forall|k: int, j: int|
                0 <= k < n.len() && 0 <= j < n[k].len() implies (#[trigger] n[k][j]) != sep && s.contains(n[k][j]) by {
                if k < n.len() - 1 {
                    assert(n[k] == w[k]);
                }
            }
        }
    }
}

/// A non-empty text without `sep` is a single word.
proof fn lemma_words_single(w: Seq<char>, sep: char)
    requires
        w.len() > 0,
        forall|j: int| 0 <= j < w.len() ==> w[j] != sep,
    ensures
        words_of(w, sep) == seq![w],
    decreases w.len(),
{
    let t = w.drop_last();
    let c = w.last();
    if t.len() > 0 {
        lemma_words_single(t, sep);
        assert(w[w.len() - 2] == t.last());
        assert(t.push(c) == w);
        assert(words_of(w, sep) == seq![t].update(0, t.push(c)));
        assert(seq![t].update(0, t.push(c)) =~= seq![w]);
    } else {
        assert(words_of(t, sep) == Seq::<Seq<char>>::empty());
        assert(seq![c] =~= w);
        assert(Seq::<Seq<char>>::empty().push(seq![c]) =~= seq![w]);
    }
}

/// Appending a separator and a word appends the word.
proof fn lemma_words_append(a: Seq<char>, sep: char, w: Seq<char>)
    requires
        w.len() > 0,
        forall|j: int| 0 <= j < w.len() ==> w[j] != sep,
    ensures
        words_of(a.push(sep) + w, sep) == words_of(a, sep).push(w),
    decreases w.len(),
{
    let t = w.drop_last();
    let c = w.last();
    let s = a.push(sep) + w;
    assert(s.drop_last() == a.push(sep) + t);
    assert(s.last() == c);
    assert(a.push(sep).drop_last() == a);
    let wa = words_of(a, sep);
    if t.len() > 0 {
        lemma_words_append(a, sep, t);
        assert(s[s.len() - 2] == t.last());
        assert(t.push(c) == w);
        assert(words_of(s, sep) == wa.push(t).update(wa.len() as int, t.push(c)));
        assert(wa.push(t).update(wa.len() as int, t.push(c)) =~= wa.push(w));
    } else {
        assert(a.push(sep) + t == a.push(sep));
        assert(s[s.len() - 2] == sep);
        assert(words_of(a.push(sep), sep) == wa);
        assert(seq![c] =~= w);
    }
}

/// Splitting joined words gives the words back, when none is empty or holds `sep`.
proof fn lemma_words_of_join(ws: Seq<Seq<char>>, sep: char)
    requires
        forall|k: int| 0 <= k < ws.len() ==> (#[trigger] ws[k]).len() > 0,
        forall|k: int, j: int| 0 <= k < ws.len() && 0 <= j < ws[k].len() ==> (#[trigger] ws[k][j]) != sep,
    ensures
        words_of(join_with(ws, sep), sep) == ws,
    decreases ws.len(),
{
    if ws.len() == 0 {
    } else if ws.len() == 1 {
        lemma_words_single(ws[0], sep);
        assert(seq![ws[0]] == ws);
    } else {
        let init = ws.drop_last();
        lemma_words_of_join(init, sep);
        assert forall|j: int| 0 <= j < ws.last().len() implies ws.last()[j] != sep by {
            assert(ws.last()[j] == ws[ws.len() - 1][j]);
        }
        lemma_words_append(join_with(init, sep), sep, ws.last());
        assert(init.push(ws.last()) == ws);
    }
}

/// Collapsing twice is collapsing once.
pub proof fn lemma_collapsed_idempotent(s: Seq<char>, sep: char)
    ensures
        collapsed(collapsed(s, sep), sep) == collapsed(s, sep),
{
    lemma_words_shape(s, sep);
    lemma_words_of_join(words_of(s, sep), sep);
}

/// Every character of a collapsed text is `sep` or a character of the text.
pub proof fn lemma_collapsed_chars(s: Seq<char>, sep: char)
    ensures
        forall|j: int| 0 <= j < collapsed(s, sep).len() ==> (#[trigger] collapsed(s, sep)[j]) == sep || s.contains(collapsed(s, sep)[j]),
{
    lemma_words_shape(s, sep);
    lemma_join_chars(words_of(s, sep), sep, s);
}

proof fn lemma_join_chars(ws: Seq<Seq<char>>, sep: char, s: Seq<char>)
    requires
        forall|k: int, j: int| 0 <= k < ws.len() && 0 <= j < ws[k].len() ==> s.contains(#[trigger] ws[k][j]),
    ensures
        forall|j: int| 0 <= j < join_with(ws, sep).len() ==> (#[trigger] join_with(ws, sep)[j]) == sep || s.contains(join_with(ws, sep)[j]),
    decreases ws.len(),
{
    if ws.len() == 1 {
        assert forall|j: int| 0 <= j < join_with(ws, sep).len() implies (#[trigger] join_with(ws, sep)[j]) == sep || s.contains(join_with(ws, sep)[j]) by {
            assert(join_with(ws, sep)[j] == ws[0][j]);
        }
    } else if ws.len() > 1 {
        let init = ws.drop_last();
        lemma_join_chars(init, sep, s);
        let a = join_with(init, sep);
        let j2 = join_with(ws, sep);
        assert(j2 == a.push(sep) + ws.last());
        assert forall|j: int| 0 <= j < j2.len() implies (#[trigger] j2[j]) == sep || s.contains(j2[j]) by {
            if j < a.len() {
                assert(j2[j] == a[j]);
            } else if j == a.len() {
            } else {
                assert(j2[j] == ws[ws.len() - 1][j - a.len() - 1]);
            }
        }
    }
}

/// `s` with every white-space character taken out.
pub open spec fn without_white_space(s: Seq<char>) -> Seq<char>
    decreases s.len(),
{
    if s.len() == 0 {
        Seq::empty()
    } else if is_unicode_whitespace(s.last()) {
        without_white_space(s.drop_last())
    } else {
        without_white_space(s.drop_last()).push(s.last())
    }
}

proof fn lemma_without_push(s: Seq<char>, c: char)
    ensures
        without_white_space(s.push(c)) == if is_unicode_whitespace(c) {
            without_white_space(s)
        } else {
            without_white_space(s).push(c)
        },
{
    assert(s.push(c).drop_last() == s);
}

/// Collapsing runs of a white-space separator takes out no other character.
pub proof fn lemma_collapsed_keeps_non_white(s: Seq<char>, sep: char)
    requires
        is_unicode_whitespace(sep),
    ensures
        without_white_space(collapsed(s, sep)) == without_white_space(s),
    decreases s.len(),
{
    if s.len() > 0 {
        let t = s.drop_last();
        let c = s.last();
        lemma_collapsed_keeps_non_white(t, sep);
        lemma_words_last_nonempty(t, sep);
        let w = words_of(t, sep);
        assert(t.push(c) == s);
        lemma_without_push(t, c);
        if c == sep {
        } else if s.len() >= 2 && s[s.len() - 2] != sep {
            assert(t.last() == s[s.len() - 2]);
            lemma_join_extend_last(w, sep, c);
            lemma_without_push(join_with(w, sep), c);
        } else {
            lemma_join_push(w, sep, c);
            if w.len() == 0 {
                assert(join_with(w, sep) == Seq::<char>::empty());
                lemma_without_push(Seq::<char>::empty(), c);
                assert(Seq::<char>::empty().push(c) == seq![c]);
            } else {
                let j = join_with(w, sep);
                lemma_without_push(j, sep);
                lemma_without_push(j.push(sep), c);
            }
        }
    }
}

/// Words that are non-empty and free of `sep`, joined: no `sep` at either end and
/// never two in a row.
proof fn lemma_join_shape(ws: Seq<Seq<char>>, sep: char)
    requires
        forall|k: int| 0 <= k < ws.len() ==> (#[trigger] ws[k]).len() > 0,
        forall|k: int, j: int| 0 <= k < ws.len() && 0 <= j < ws[k].len() ==> (#[trigger] ws[k][j]) != sep,
    ensures
        join_with(ws, sep).len() > 0 ==> join_with(ws, sep)[0] != sep
            && join_with(ws, sep)[join_with(ws, sep).len() - 1] != sep,
        ws.len() > 0 ==> join_with(ws, sep).len() > 0,
        forall|j: int| 0 <= j < join_with(ws, sep).len() - 1 && #[trigger] join_with(ws, sep)[j] == sep
            ==> join_with(ws, sep)[j + 1] != sep,
    decreases ws.len(),
{
    if ws.len() == 1 {
        let w = ws[0];
        assert(join_with(ws, sep) == w);
        assert(w[0] == ws[0][0]);
        assert(w[w.len() - 1] == ws[0][w.len() - 1]);
        assert forall|j: int| 0 <= j < w.len() - 1 && #[trigger] w[j] == sep implies w[j + 1] != sep by {
            assert(w[j] == ws[0][j]);
        }
    } else if ws.len() > 1 {
        let init = ws.drop_last();
        lemma_join_shape(init, sep);
        let a = join_with(init, sep);
        let l = ws.last();
        let j2 = join_with(ws, sep);
        assert(j2 == a.push(sep) + l);
        assert(init[0].len() > 0);
        assert(a.len() > 0);
        assert(l.len() > 0);
        assert(j2[0] == a[0]);
        assert(j2[j2.len() - 1] == l[l.len() - 1]);
        assert(l[l.len() - 1] == ws[ws.len() - 1][l.len() - 1]);
        assert forall|j: int| 0 <= j < j2.len() - 1 && #[trigger] j2[j] == sep implies j2[j + 1] != sep by {
            if j < a.len() - 1 {
                assert(j2[j] == a[j]);
                assert(j2[j + 1] == a[j + 1]);
            } else if j == a.len() - 1 {
                assert(j2[j] == a[a.len() - 1]);
            } else if j == a.len() {
                assert(j2[j + 1] == l[0]);
                assert(l[0] == ws[ws.len() - 1][0]);
            } else {
                assert(j2[j] == l[j - a.len() - 1]);
                assert(l[j - a.len() - 1] == ws[ws.len() - 1][j - a.len() - 1]);
            }
        }
    }
}

/// A collapsed text has no `sep` at either end and never two in a row.
pub proof fn lemma_collapsed_shape(s: Seq<char>, sep: char)
    ensures
        collapsed(s, sep).len() > 0 ==> collapsed(s, sep)[0] != sep
            && collapsed(s, sep)[collapsed(s, sep).len() - 1] != sep,
        forall|j: int| 0 <= j < collapsed(s, sep).len() - 1 && #[trigger] collapsed(s, sep)[j] == sep
            ==> collapsed(s, sep)[j + 1] != sep,
{
    lemma_words_shape(s, sep);
    lemma_join_shape(words_of(s, sep), sep);
}

/// The characters of `cs` with runs of `sep` collapsed to one and trimmed at both ends.
pub fn collapse_separators(cs: &[char], sep: char) -> (r: Vec<char>)
    ensures
        r@ == collapsed(cs@, sep),
{
    let mut out: Vec<char> = Vec::new();
    let mut in_word = false;
    let mut i: usize = 0;
    while i < cs.len()
        invariant
            i <= cs.len(),
            out@ == join_with(words_of(cs@.take(i as int), sep), sep),
            in_word == (i > 0 && cs@[i - 1] != sep),
            (out@.len() == 0) == (words_of(cs@.take(i as int), sep).len() == 0),
        decreases cs.len() - i,
    {
        let ghost t = cs@.take(i as int);
        let ghost t1 = cs@.take(i + 1);
        let c = cs[i];
        proof {
            assert(t1.drop_last() == t);
            assert(t1.last() == c);
            if i > 0 {
                assert(t1[t1.len() - 2] == cs@[i - 1]);
            }
            lemma_words_last_nonempty(t, sep);
            lemma_words_last_nonempty(t1, sep);
        }
        if c == sep {
            in_word = false;
        } else if in_word {
            proof {
                lemma_join_extend_last(words_of(t, sep), sep, c);
            }
            out.push(c);
        } else {
            proof {
                lemma_join_push(words_of(t, sep), sep, c);
            }
            if out.len() > 0 {
                out.push(sep);
            }
            out.push(c);
            in_word = true;
        }
        proof {
            if words_of(t1, sep).len() >= 1 {
                lemma_join_nonempty(words_of(t1, sep), sep);
            }
        }
        i += 1;
    }
    proof {
        assert(cs@.take(cs@.len() as int) == cs@);
    }
    out
}

/// The Unicode lower-case mapping of a text as `str::to_lowercase` applies it (with
/// its context rule for a final capital sigma).
pub uninterp spec fn lowercase_text(s: Seq<char>) -> Seq<char>;

/// `str::to_lowercase`.  Nothing is claimed of the mapping beyond its name
/// [`lowercase_text`]: the Unicode case tables are not restated here.
#[verifier::external_body]
pub(crate) fn to_lowercase(s: &str) -> (r: String)
    ensures
        r@ == lowercase_text(s@),
{
    s.to_lowercase()
}

/// Appends the characters of `s` to `out`.
pub fn push_text(out: &mut Vec<char>, s: &str)
    ensures
        final(out)@ == old(out)@ + s@,
{
    let mut cs = chars_of(s);
    out.append(&mut cs);
}

/// `a` sorts before or equal to `b`, comparing characters by code point (the order
/// of `str`'s comparison, since UTF-8 keeps code point order).
pub open spec fn text_le(a: Seq<char>, b: Seq<char>) -> bool
    decreases a.len(),
{
    if a.len() == 0 {
        true
    } else if b.len() == 0 {
        false
    } else if (a[0] as u32) != (b[0] as u32) {
        (a[0] as u32) < (b[0] as u32)
    } else {
        text_le(a.drop_first(), b.drop_first())
    }
}

pub proof fn lemma_text_le_total(a: Seq<char>, b: Seq<char>)
    ensures
        text_le(a, b) || text_le(b, a),
    decreases a.len(),
{
    if a.len() > 0 && b.len() > 0 && (a[0] as u32) == (b[0] as u32) {
        lemma_text_le_total(a.drop_first(), b.drop_first());
    }
}

pub proof fn lemma_text_le_trans(a: Seq<char>, b: Seq<char>, c: Seq<char>)
    requires
        text_le(a, b),
        text_le(b, c),
    ensures
        text_le(a, c),
    decreases a.len(),
{
    if a.len() > 0 && b.len() > 0 && c.len() > 0 && (a[0] as u32) == (b[0] as u32) && (b[0] as u32) == (c[0] as u32) {
        lemma_text_le_trans(a.drop_first(), b.drop_first(), c.drop_first());
    }
}

/// Whether `a` sorts before or equal to `b`.
pub fn chars_le(a: &[char], b: &[char]) -> (r: bool)
    ensures
        r == text_le(a@, b@),
{
    let mut i: usize = 0;
    proof {
        assert(a@.subrange(0, a@.len() as int) == a@);
        assert(b@.subrange(0, b@.len() as int) == b@);
    }
    while i < a.len() && i < b.len() && (a[i] as u32) == (b[i] as u32)
        invariant
            i <= a.len(),
            i <= b.len(),
            text_le(a@, b@) == text_le(a@.subrange(i as int, a@.len() as int), b@.subrange(i as int, b@.len() as int)),
        decreases a.len() - i,
    {
        proof {
            let sa = a@.subrange(i as int, a@.len() as int);
            let sb = b@.subrange(i as int, b@.len() as int);
            assert(sa.drop_first() == a@.subrange(i + 1, a@.len() as int));
            assert(sb.drop_first() == b@.subrange(i + 1, b@.len() as int));
        }
        i += 1;
    }
    proof {
        assert(a@.subrange(0, a@.len() as int) == a@);
        assert(b@.subrange(0, b@.len() as int) == b@);
    }
    if i == a.len() {
        true
    } else if i == b.len() {
        false
    } else {
        (a[i] as u32) < (b[i] as u32)
    }
}

} // verus!

verus! {

/// The number of bytes `c` takes in UTF-8.
pub open spec fn utf8_len(c: char) -> int {
    let u = c as u32;
    if u < 0x80 {
        1
    } else if u < 0x800 {
        2
    } else if u < 0x10000 {
        3
    } else {
        4
    }
}

/// The characters filling the first `n` bytes of `s` in UTF-8, when the `n`-th byte
/// ends a character and `s` is that long (what `str::get(..n)` returns); `None`
/// otherwise.
pub open spec fn byte_prefix(s: Seq<char>, n: int) -> Option<Seq<char>>
    decreases s.len(),
{
    if n == 0 {
        Some(Seq::empty())
    } else if n < 0 || s.len() == 0 {
        None
    } else {
        match byte_prefix(s.drop_first(), n - utf8_len(s[0])) {
            Some(p) => Some(seq![s[0]] + p),
            None => None,
        }
    }
}

spec fn prepend(a: Seq<char>, o: Option<Seq<char>>) -> Option<Seq<char>> {
    match o {
        Some(p) => Some(a + p),
        None => None,
    }
}

fn utf8_width(c: char) -> (r: usize)
    ensures
        r == utf8_len(c),
{
    let u = c as u32;
    if u < 0x80 {
        1
    } else if u < 0x800 {
        2
    } else if u < 0x10000 {
        3
    } else {
        4
    }
}

/// `str::get(..n)`: the first `n` bytes of `s` as a string, when they end on a
/// character boundary.
pub fn byte_prefix_text(s: &str, n: usize) -> (r: Option<String>)
    ensures
        match r {
            Some(t) => byte_prefix(s@, n as int) == Some(t@),
            None => byte_prefix(s@, n as int) is None,
        },
{
    let cs = chars_of(s);
    let mut i: usize = 0;
    let mut rem: usize = n;
    proof {
        assert(cs@.skip(0) == cs@);
        assert(cs@.take(0) + Seq::<char>::empty() == Seq::<char>::empty());
        assert(prepend(cs@.take(0), byte_prefix(cs@.skip(0), rem as int)) == byte_prefix(s@, n as int)) by {
            match byte_prefix(s@, n as int) {
                Some(p) => assert(cs@.take(0) + p == p),
                None => {},
            }
        }
    }
    while rem > 0
        invariant
            i <= cs@.len(),
            cs@ == s@,
            byte_prefix(s@, n as int) == prepend(cs@.take(i as int), byte_prefix(cs@.skip(i as int), rem as int)),
        decreases rem,
    {
        if i >= cs.len() {
            return None;
        }
        let u = utf8_width(cs[i]);
        let ghost rest = cs@.skip(i as int);
        proof {
            assert(rest[0] == cs@[i as int]);
            assert(rest.drop_first() == cs@.skip(i + 1));
        }
        if u > rem {
            return None;
        }
        proof {
            match byte_prefix(cs@.skip(i + 1), rem - u) {
                Some(p) => {
                    assert(cs@.take(i as int) + (seq![cs@[i as int]] + p) == cs@.take(i + 1) + p);
                },
                None => {},
            }
        }
        rem = rem - u;
        i = i + 1;
    }
    let mut out: Vec<char> = Vec::new();
    let mut k: usize = 0;
    while k < i
        invariant
            k <= i <= cs@.len(),
            out@ == cs@.take(k as int),
        decreases i - k,
    {
        out.push(cs[k]);
        proof {
            assert(cs@.take(k + 1) == cs@.take(k as int).push(cs@[k as int]));
        }
        k += 1;
    }
    proof {
        assert(cs@.take(i as int) + Seq::<char>::empty() == cs@.take(i as int));
    }
    Some(string_of(out.as_slice()))
}

} // verus!
