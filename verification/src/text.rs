//! Text on sequences of characters: the character-level operations that the rest of the
//! library is written with.
use vstd::prelude::*;

verus! {

/// `String::push` of std: appends one character.
#[verifier::external_body]
pub(crate) fn push_char(s: &mut String, c: char)
    ensures
        final(s)@ == old(s)@.push(c),
{
    s.push(c);
}

/// The Unicode case mapping to lower case of a whole string, as `str::to_lowercase` of std
/// computes it (character tables, and the final-sigma rule).
pub uninterp spec fn lowercase(s: Seq<char>) -> Seq<char>;

/// `str::to_lowercase` of std. Its result is named `lowercase` of the argument's characters.
#[verifier::external_body]
pub(crate) fn to_lowercase(s: &str) -> (r: String)
    ensures
        r@ == lowercase(s@),
{
    s.to_lowercase()
}

/// The characters of `s`, in order.
pub fn chars_of(s: &str) -> (r: Vec<char>)
    ensures
        r@ == s@,
{
    broadcast use vstd::string::group_string_axioms;

    let mut r: Vec<char> = Vec::new();
    for c in it: s.chars()
        invariant
            it.seq() == s@,
            r@ == s@.take(it.index()),
    {
        r.push(c);
    }
    r
}

/// Appends the characters of `cs` to `out`.
pub fn push_chars(out: &mut String, cs: &Vec<char>)
    ensures
        final(out)@ == old(out)@ + cs@,
{
    let ghost start = out@;
    for i in 0..cs.len()
        invariant
            out@ == start + cs@.take(i as int),
    {
        assert(cs@.take(i + 1) =~= cs@.take(i as int).push(cs@[i as int]));
        push_char(out, cs[i]);
    }
    assert(cs@.take(cs@.len() as int) =~= cs@);
}

/// Appends the characters of `s` to `out`.
pub fn push_str(out: &mut String, s: &str)
    ensures
        final(out)@ == old(out)@ + s@,
{
    let cs = chars_of(s);
    push_chars(out, &cs);
}

/// A `String` holding the characters of `cs`.
pub fn string_of(cs: &Vec<char>) -> (r: String)
    ensures
        r@ == cs@,
{
    let mut out = String::new();
    push_chars(&mut out, cs);
    assert(out@ =~= cs@);
    out
}

/// A `String` holding the characters of `s`.
pub fn string_from(s: &str) -> (r: String)
    ensures
        r@ == s@,
{
    let cs = chars_of(s);
    string_of(&cs)
}

/// The characters of std's `char::is_whitespace`: those with the Unicode `White_Space`
/// property.
pub open spec fn is_white_space(c: char) -> bool {
    let u = c as u32;
    ||| 0x9 <= u <= 0xd
    ||| u == 0x20
    ||| u == 0x85
    ||| u == 0xa0
    ||| u == 0x1680
    ||| 0x2000 <= u <= 0x200a
    ||| u == 0x2028
    ||| u == 0x2029
    ||| u == 0x202f
    ||| u == 0x205f
    ||| u == 0x3000
}

pub fn is_white_space_char(c: char) -> (r: bool)
    ensures
        r == is_white_space(c),
{
    let u = c as u32;
    (0x9 <= u && u <= 0xd) || u == 0x20 || u == 0x85 || u == 0xa0 || u == 0x1680 || (0x2000 <= u
        && u <= 0x200a) || u == 0x2028 || u == 0x2029 || u == 0x202f || u == 0x205f || u == 0x3000
}

/// `s` begins with `p`.
pub open spec fn starts_with(s: Seq<char>, p: Seq<char>) -> bool {
    p.len() <= s.len() && s.take(p.len() as int) == p
}

/// The `len` characters of `h` from index `i` on.
pub open spec fn block_at(h: Seq<char>, i: int, len: int) -> Seq<char> {
    h.subrange(i, i + len)
}

/// `n` occurs in `h` as a contiguous block.
pub open spec fn occurs_in(h: Seq<char>, n: Seq<char>) -> bool {
    exists|i: int| 0 <= i <= h.len() - n.len() && #[trigger] block_at(h, i, n.len() as int) == n
}

/// Whether `s` begins with `p`.
pub fn has_prefix(s: &Vec<char>, p: &Vec<char>) -> (r: bool)
    ensures
        r == starts_with(s@, p@),
{
    if p.len() > s.len() {
        return false;
    }
    for i in 0..p.len()
        invariant
            p.len() <= s.len(),
            forall|j: int| 0 <= j < i ==> s@[j] == p@[j],
    {
        if s[i] != p[i] {
            assert(s@.take(p.len() as int)[i as int] != p@[i as int]);
            return false;
        }
    }
    assert(s@.take(p.len() as int) =~= p@);
    true
}

/// The characters of `s` from index `start` on.
pub fn suffix_from(s: &Vec<char>, start: usize) -> (r: Vec<char>)
    requires
        start <= s.len(),
    ensures
        r@ == s@.skip(start as int),
{
    let mut r: Vec<char> = Vec::new();
    let mut i = start;
    while i < s.len()
        invariant
            start <= i <= s.len(),
            r@ == s@.subrange(start as int, i as int),
        decreases s.len() - i,
    {
        r.push(s[i]);
        i += 1;
        assert(r@ =~= s@.subrange(start as int, i as int));
    }
    assert(s@.skip(start as int) =~= s@.subrange(start as int, s.len() as int));
    r
}

/// The first `n` characters of `s` (all of them where `s` is shorter).
pub fn prefix_of(s: &Vec<char>, n: usize) -> (r: Vec<char>)
    ensures
        r@ == s@.take(if n <= s.len() { n as int } else { s.len() as int }),
{
    let end = if n <= s.len() { n } else { s.len() };
    let mut r: Vec<char> = Vec::new();
    for i in 0..end
        invariant
            end <= s.len(),
            r@ == s@.take(i as int),
    {
        r.push(s[i]);
        assert(r@ =~= s@.take(i + 1));
    }
    r
}

/// Whether the characters of `n` occur, as one block, in those of `h`.
pub fn contains_chars(h: &Vec<char>, n: &Vec<char>) -> (r: bool)
    ensures
        r == occurs_in(h@, n@),
{
    if n.len() > h.len() {
        return false;
    }
    let last = h.len() - n.len();
    let mut i: usize = 0;
    loop
        invariant
            last == h.len() - n.len(),
            n.len() <= h.len(),
            i <= last,
            forall|k: int| 0 <= k < i ==> #[trigger] block_at(h@, k, n.len() as int) != n@,
        ensures
            forall|k: int| 0 <= k <= last ==> #[trigger] block_at(h@, k, n.len() as int) != n@,
        decreases last - i,
    {
        let mut j: usize = 0;
        let mut same = true;
        while j < n.len()
            invariant
                i <= last,
                last == h.len() - n.len(),
                j <= n.len(),
                same ==> forall|m: int| 0 <= m < j ==> h@[i + m] == n@[m],
                !same ==> block_at(h@, i as int, n.len() as int) != n@,
            decreases n.len() - j,
        {
            if h[i + j] != n[j] {
                assert(h@.subrange(i as int, i + n.len())[j as int] != n@[j as int]);
                same = false;
            }
            j += 1;
        }
        if same {
            assert(block_at(h@, i as int, n.len() as int) =~= n@);
            return true;
        }
        if i == last {
            break;
        }
        i += 1;
    }
    assert forall|k: int| 0 <= k <= h@.len() - n@.len() implies #[trigger] block_at(
        h@,
        k,
        n@.len() as int,
    ) != n@ by {}
    false
}

/// The digit character for `d < 10`.
pub open spec fn digit_char(d: int) -> char {
    (('0' as u32) + d) as char
}

/// The decimal numeral of `n`, without leading zeros ("0" for zero).
pub open spec fn decimal(n: nat) -> Seq<char>
    decreases n,
{
    if n < 10 {
        seq![digit_char(n as int)]
    } else {
        decimal(n / 10).push(digit_char((n % 10) as int))
    }
}

/// The digit character of `d`.
pub fn digit(d: u64) -> (c: char)
    requires
        d < 10,
    ensures
        c == digit_char(d as int),
{
    match d {
        0 => '0',
        1 => '1',
        2 => '2',
        3 => '3',
        4 => '4',
        5 => '5',
        6 => '6',
        7 => '7',
        8 => '8',
        _ => '9',
    }
}

/// Appends the decimal numeral of `n` to `out`.
pub fn push_decimal(out: &mut Vec<char>, n: u64)
    ensures
        final(out)@ == old(out)@ + decimal(n as nat),
    decreases n,
{
    if n >= 10 {
        push_decimal(out, n / 10);
    }
    let c = digit(n % 10);
    out.push(c);
    assert(old(out)@ + decimal(n as nat) =~= if n >= 10 {
        (old(out)@ + decimal((n / 10) as nat)).push(c)
    } else {
        old(out)@.push(c)
    });
}

} // verus!

verus! {

/// `s` without its leading white space.
pub open spec fn trim_start(s: Seq<char>) -> Seq<char>
    decreases s.len(),
{
    if s.len() > 0 && is_white_space(s[0]) {
        trim_start(s.drop_first())
    } else {
        s
    }
}

/// `s` without its trailing white space.
pub open spec fn trim_end(s: Seq<char>) -> Seq<char>
    decreases s.len(),
{
    if s.len() > 0 && is_white_space(s.last()) {
        trim_end(s.drop_last())
    } else {
        s
    }
}

/// `s` without leading and trailing white space, as std's `str::trim` gives it.
pub open spec fn trimmed(s: Seq<char>) -> Seq<char> {
    trim_end(trim_start(s))
}

/// The characters of `s` without leading and trailing white space.
pub fn trim_chars(s: &Vec<char>) -> (r: Vec<char>)
    ensures
        r@ == trimmed(s@),
{
    let mut a: usize = 0;
    assert(s@.skip(0) =~= s@);
    while a < s.len() && is_white_space_char(s[a])
        invariant
            a <= s.len(),
            trim_start(s@) == trim_start(s@.skip(a as int)),
        decreases s.len() - a,
    {
        assert(s@.skip(a as int).drop_first() =~= s@.skip(a + 1));
        a += 1;
    }
    assert(trim_start(s@) == s@.skip(a as int));
    assert(s@.skip(a as int) =~= s@.subrange(a as int, s.len() as int));
    let mut b: usize = s.len();
    while b > a && is_white_space_char(s[b - 1])
        invariant
            a <= b <= s.len(),
            trim_end(s@.subrange(a as int, s.len() as int)) == trim_end(
                s@.subrange(a as int, b as int),
            ),
        decreases b - a,
    {
        assert(s@.subrange(a as int, b as int).drop_last() =~= s@.subrange(
            a as int,
            b - 1,
        ));
        b -= 1;
    }
    let mut r: Vec<char> = Vec::new();
    let mut i = a;
    while i < b
        invariant
            a <= i <= b <= s.len(),
            r@ == s@.subrange(a as int, i as int),
        decreases b - i,
    {
        r.push(s[i]);
        i += 1;
        assert(r@ =~= s@.subrange(a as int, i as int));
    }
    r
}

/// The words of `s`: its maximal runs of characters other than white space, in order.
pub open spec fn words(s: Seq<char>) -> Seq<Seq<char>>
    decreases s.len(),
{
    if s.len() == 0 {
        seq![]
    } else {
        let p = s.drop_last();
        let c = s.last();
        let w = words(p);
        if is_white_space(c) {
            w
        } else if p.len() == 0 || is_white_space(p.last()) {
            w.push(seq![c])
        } else {
            w.update(w.len() - 1, w.last().push(c))
        }
    }
}

/// The pieces of `ws` joined with `sep` between each two.
pub open spec fn join(ws: Seq<Seq<char>>, sep: Seq<char>) -> Seq<char>
    decreases ws.len(),
{
    if ws.len() == 0 {
        seq![]
    } else if ws.len() == 1 {
        ws[0]
    } else {
        join(ws.drop_last(), sep) + sep + ws.last()
    }
}

proof fn lemma_words_nonempty(p: Seq<char>)
    requires
        p.len() > 0,
        !is_white_space(p.last()),
    ensures
        words(p).len() > 0,
    decreases p.len(),
{
    let q = p.drop_last();
    if q.len() > 0 && !is_white_space(q.last()) {
        lemma_words_nonempty(q);
    }
}

proof fn lemma_join_push(ws: Seq<Seq<char>>, sep: Seq<char>, x: Seq<char>)
    ensures
        join(ws.push(x), sep) == if ws.len() == 0 {
            x
        } else {
            join(ws, sep) + sep + x
        },
{
    assert(ws.push(x).drop_last() =~= ws);
}

proof fn lemma_join_extend_last(ws: Seq<Seq<char>>, sep: Seq<char>, c: char)
    requires
        ws.len() > 0,
    ensures
        join(ws.update(ws.len() - 1, ws.last().push(c)), sep) == join(ws, sep).push(c),
{
    let u = ws.update(ws.len() - 1, ws.last().push(c));
    if ws.len() > 1 {
        assert(u.drop_last() =~= ws.drop_last());
        assert(join(u, sep) == join(ws.drop_last(), sep) + sep + ws.last().push(c));
        assert(join(ws.drop_last(), sep) + sep + ws.last().push(c) =~= (join(ws.drop_last(), sep)
            + sep + ws.last()).push(c));
    }
}

/// The words of `s` joined with single spaces: std's `split_whitespace` followed by
/// `join(" ")`.
pub fn single_line_chars(s: &Vec<char>) -> (r: Vec<char>)
    ensures
        r@ == join(words(s@), seq![' ']),
{
    let mut out: Vec<char> = Vec::new();
    let mut i: usize = 0;
    while i < s.len()
        invariant
            i <= s.len(),
            out@ == join(words(s@.take(i as int)), seq![' ']),
            out@.len() == 0 <==> words(s@.take(i as int)).len() == 0,
        decreases s.len() - i,
    {
        let c = s[i];
        let ghost p = s@.take(i as int);
        assert(s@.take(i + 1).drop_last() =~= p);
        assert(s@.take(i + 1).last() == c);
        if is_white_space_char(c) {
        } else if i == 0 || is_white_space_char(s[i - 1]) {
            proof {
                lemma_join_push(words(p), seq![' '], seq![c]);
            }
            if out.len() > 0 {
                out.push(' ');
                assert(out@.push(c) =~= join(words(p), seq![' ']) + seq![' '] + seq![c]);
            } else {
                assert(out@.push(c) =~= seq![c]);
            }
            out.push(c);
        } else {
            assert(p.last() == s@[i - 1]);
            proof {
                lemma_words_nonempty(p);
                lemma_join_extend_last(words(p), seq![' '], c);
            }
            out.push(c);
        }
        i += 1;
    }
    assert(s@.take(s.len() as int) =~= s@);
    out
}

} // verus!

verus! {

/// A word: at least one character, none of them white space.
pub open spec fn is_word(w: Seq<char>) -> bool {
    w.len() > 0 && forall|i: int| 0 <= i < w.len() ==> !is_white_space(#[trigger] w[i])
}

proof fn lemma_words_are_words(s: Seq<char>)
    ensures
        forall|i: int| 0 <= i < words(s).len() ==> is_word(#[trigger] words(s)[i]),
    decreases s.len(),
{
    if s.len() > 0 {
        let p = s.drop_last();
        let c = s.last();
        lemma_words_are_words(p);
        let w = words(p);
        if !is_white_space(c) {
            if p.len() == 0 || is_white_space(p.last()) {
                assert forall|i: int| 0 <= i < w.push(seq![c]).len() implies is_word(
                    #[trigger] w.push(seq![c])[i],
                ) by {
                    if i < w.len() {
                        assert(is_word(w[i]));
                    }
                }
            } else {
                lemma_words_nonempty(p);
                let u = w.update(w.len() - 1, w.last().push(c));
                assert forall|i: int| 0 <= i < u.len() implies is_word(#[trigger] u[i]) by {
                    assert(is_word(w[i]));
                    if i == w.len() - 1 {
                        let x = w.last().push(c);
                        assert forall|j: int| 0 <= j < x.len() implies !is_white_space(#[trigger] x[j]) by {
                            if j < w.last().len() {
                                assert(!is_white_space(w[i][j]));
                            }
                        }
                    }
                }
            }
        }
    }
}

proof fn lemma_words_of_word(w: Seq<char>)
    requires
        is_word(w),
    ensures
        words(w) == seq![w],
    decreases w.len(),
{
    let p = w.drop_last();
    let c = w.last();
    assert(!is_white_space(w[w.len() - 1]));
    if p.len() == 0 {
        assert(words(p) =~= Seq::<Seq<char>>::empty());
        assert(seq![c] =~= w);
        assert(Seq::<Seq<char>>::empty().push(seq![c]) =~= seq![w]);
    } else {
        assert(is_word(p)) by {
            assert forall|i: int| 0 <= i < p.len() implies !is_white_space(#[trigger] p[i]) by {
                assert(!is_white_space(w[i]));
            }
        }
        lemma_words_of_word(p);
        assert(!is_white_space(p[p.len() - 1]));
        assert(p.push(c) =~= w);
        assert(seq![p].update(0, p.push(c)) =~= seq![w]);
    }
}

proof fn lemma_words_after_space(x: Seq<char>, w: Seq<char>)
    requires
        is_word(w),
    ensures
        words(x + seq![' '] + w) == words(x).push(w),
    decreases w.len(),
{
    let s = x + seq![' '] + w;
    let c = w.last();
    assert(!is_white_space(w[w.len() - 1]));
    assert(s.last() == c);
    let wp = w.drop_last();
    assert(s.drop_last() =~= x + seq![' '] + wp);
    if wp.len() == 0 {
        let q = x + seq![' '];
        assert(x + seq![' '] + wp =~= q);
        assert(q.drop_last() =~= x);
        assert(is_white_space(q.last()));
        assert(words(q) == words(x));
        assert(seq![c] =~= w);
    } else {
        assert(is_word(wp)) by {
            assert forall|i: int| 0 <= i < wp.len() implies !is_white_space(#[trigger] wp[i]) by {
                assert(!is_white_space(w[i]));
            }
        }
        lemma_words_after_space(x, wp);
        assert((x + seq![' '] + wp).last() == wp[wp.len() - 1]);
        assert(!is_white_space(wp[wp.len() - 1]));
        let wx = words(x);
        assert(wx.push(wp).update(wx.len() as int, wp.push(c)) =~= wx.push(w)) by {
            assert(wp.push(c) =~= w);
        }
    }
}

proof fn lemma_words_of_join(ws: Seq<Seq<char>>)
    requires
        forall|i: int| 0 <= i < ws.len() ==> is_word(#[trigger] ws[i]),
    ensures
        words(join(ws, seq![' '])) == ws,
    decreases ws.len(),
{
    if ws.len() == 0 {
        assert(words(Seq::<char>::empty()) =~= ws);
    } else if ws.len() == 1 {
        assert(is_word(ws[0]));
        lemma_words_of_word(ws[0]);
        assert(seq![ws[0]] =~= ws);
    } else {
        let p = ws.drop_last();
        assert forall|i: int| 0 <= i < p.len() implies is_word(#[trigger] p[i]) by {
            assert(is_word(ws[i]));
        }
        lemma_words_of_join(p);
        assert(is_word(ws[ws.len() - 1]));
        lemma_words_after_space(join(p, seq![' ']), ws.last());
        assert(p.push(ws.last()) =~= ws);
    }
}

/// Putting text on one line twice changes nothing more than doing it once: the words of the
/// joined line are the words it was made of.
pub proof fn law_single_line_idempotent(s: Seq<char>)
    ensures
        words(join(words(s), seq![' '])) == words(s),
        join(words(join(words(s), seq![' '])), seq![' ']) == join(words(s), seq![' ']),
{
    lemma_words_are_words(s);
    lemma_words_of_join(words(s));
}

} // verus!
