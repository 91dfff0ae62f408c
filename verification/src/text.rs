//! Character-level text handling: Unicode whitespace, trimming, splitting on a
//! separator, splitting into whitespace-separated words, ASCII case folding and
//! decimal `u32` parsing. Every operation works on `Seq<char>` views and is
//! specified by a spec function of its own.

use vstd::prelude::*;

verus! {

// ---------------------------------------------------------------------------
// Whitespace
// ---------------------------------------------------------------------------

/// The Unicode `White_Space` property, which is what `char::is_whitespace`
/// tests: U+0009..U+000D, U+0020, U+0085, U+00A0, U+1680, U+2000..U+200A,
/// U+2028, U+2029, U+202F, U+205F and U+3000.
pub open spec fn spec_is_whitespace(c: char) -> bool {
    let u = c as u32;
    ||| 0x09 <= u <= 0x0D
    ||| u == 0x20
    ||| u == 0x85
    ||| u == 0xA0
    ||| u == 0x1680
    ||| 0x2000 <= u <= 0x200A
    ||| u == 0x2028
    ||| u == 0x2029
    ||| u == 0x202F
    ||| u == 0x205F
    ||| u == 0x3000
}

/// Whether `c` is Unicode whitespace.
pub fn is_whitespace(c: char) -> (r: bool)
    ensures
        r == spec_is_whitespace(c),
{
    let u = c as u32;
    (0x09 <= u && u <= 0x0D) || u == 0x20 || u == 0x85 || u == 0xA0 || u == 0x1680 || (0x2000
        <= u && u <= 0x200A) || u == 0x2028 || u == 0x2029 || u == 0x202F || u == 0x205F || u
        == 0x3000
}

/// `true` when every character of `s` is whitespace (so `s` trims to nothing).
pub open spec fn spec_is_blank(s: Seq<char>) -> bool {
    forall|i: int| 0 <= i < s.len() ==> #[trigger] spec_is_whitespace(s[i])
}

// ---------------------------------------------------------------------------
// Conversions between `str` and `Vec<char>`
// ---------------------------------------------------------------------------

/// The characters of `s`, in order.
pub fn chars_of(s: &str) -> (r: Vec<char>)
    ensures
        r@ == s@,
{
    broadcast use vstd::string::group_string_axioms;

    let mut r: Vec<char> = Vec::new();
    for c in it: s.chars()
        invariant
            it.seq() == s@,
            r@ == it.seq().take(it.index() as int),
    {
        r.push(c);
    }
    r
}

/// Appends one character to a `String` (`String::push`).
#[verifier::external_body]
fn push_char(s: &mut String, c: char)
    ensures
        final(s)@ == old(s)@.push(c),
{
    s.push(c);
}

/// The string made of the characters of `cs`, in order.
pub fn string_of(cs: &[char]) -> (r: String)
    ensures
        r@ == cs@,
{
    let mut r = String::new();
    let n = cs.len();
    for i in 0..n
        invariant
            n == cs@.len(),
            r@ == cs@.take(i as int),
    {
        push_char(&mut r, cs[i]);
        assert(cs@.take(i + 1) == cs@.take(i as int).push(cs@[i as int]));
    }
    assert(cs@.take(n as int) == cs@);
    r
}

/// Whether `a` and `b` hold the same characters.
pub fn chars_eq(a: &[char], b: &[char]) -> (r: bool)
    ensures
        r == (a@ == b@),
{
    if a.len() != b.len() {
        return false;
    }
    let n = a.len();
    for i in 0..n
        invariant
            n == a@.len() == b@.len(),
            forall|k: int| 0 <= k < i ==> a@[k] == b@[k],
    {
        if a[i] != b[i] {
            return false;
        }
    }
    assert(a@ =~= b@);
    true
}

/// `s` without the suffix `suf`, when `s` ends with it (`str::strip_suffix`).
pub open spec fn spec_strip_suffix(s: Seq<char>, suf: Seq<char>) -> Option<Seq<char>> {
    if suf.len() <= s.len() && s.subrange(s.len() - suf.len(), s.len() as int) == suf {
        Some(s.subrange(0, s.len() - suf.len()))
    } else {
        None
    }
}

/// `s` without the suffix `suf`, or `None` when `s` does not end with it.
pub fn strip_suffix(s: &str, suf: &str) -> (r: Option<String>)
    ensures
        opt_string_view(r) == spec_strip_suffix(s@, suf@),
{
    let a = chars_of(s);
    let b = chars_of(suf);
    let n = a.len();
    let m = b.len();
    if m > n {
        return None;
    }
    let start = n - m;
    for i in 0..m
        invariant
            n == a@.len(),
            m == b@.len(),
            a@ == s@,
            b@ == suf@,
            start == n - m,
            forall|k: int| 0 <= k < i ==> a@[start + k] == b@[k],
    {
        if a[start + i] != b[i] {
            assert(a@.subrange(start as int, n as int)[i as int] != b@[i as int]);
            assert(a@.subrange(start as int, n as int) != b@);
            return None;
        }
    }
    assert(a@.subrange(start as int, n as int) =~= b@);
    let mut head: Vec<char> = Vec::new();
    for i in 0..start
        invariant
            start <= a@.len(),
            head@ == a@.subrange(0, i as int),
    {
        head.push(a[i]);
        assert(a@.subrange(0, i + 1) == a@.subrange(0, i as int).push(a@[i as int]));
    }
    Some(string_of(head.as_slice()))
}

/// The characters of an optional `String`.
pub open spec fn opt_string_view(o: Option<String>) -> Option<Seq<char>> {
    match o {
        Some(s) => Some(s@),
        None => None,
    }
}

// ---------------------------------------------------------------------------
// Trimming
// ---------------------------------------------------------------------------

/// `s` without its leading whitespace.
pub open spec fn spec_trim_start(s: Seq<char>) -> Seq<char>
    decreases s.len(),
{
    if s.len() > 0 && spec_is_whitespace(s[0]) {
        spec_trim_start(s.drop_first())
    } else {
        s
    }
}

/// `s` without its trailing whitespace.
pub open spec fn spec_trim_end(s: Seq<char>) -> Seq<char>
    decreases s.len(),
{
    if s.len() > 0 && spec_is_whitespace(s.last()) {
        spec_trim_end(s.drop_last())
    } else {
        s
    }
}

/// `s` without leading and trailing whitespace (`str::trim`).
pub open spec fn spec_trim(s: Seq<char>) -> Seq<char> {
    spec_trim_end(spec_trim_start(s))
}

/// Trimming a string leaves nothing exactly when it is all whitespace.
pub proof fn lemma_trim_empty_iff_blank(s: Seq<char>)
    ensures
        (spec_trim(s).len() == 0) == spec_is_blank(s),
    decreases s.len(),
{
    lemma_trim_start_empty_iff_blank(s);
    lemma_trim_end_keeps_nonempty(spec_trim_start(s));
}

/// A trimmed string that is not empty starts with a non-whitespace character.
pub proof fn lemma_trim_first_not_whitespace(s: Seq<char>)
    ensures
        spec_trim(s).len() > 0 ==> !spec_is_whitespace(spec_trim(s)[0]),
{
    lemma_trim_start_empty_iff_blank(s);
    lemma_trim_end_prefix(spec_trim_start(s));
}

/// Right-trimming keeps a prefix of the string.
proof fn lemma_trim_end_prefix(s: Seq<char>)
    ensures
        spec_trim_end(s).len() <= s.len(),
        forall|i: int| 0 <= i < spec_trim_end(s).len() ==> #[trigger] spec_trim_end(s)[i] == s[i],
    decreases s.len(),
{
    if s.len() > 0 && spec_is_whitespace(s.last()) {
        lemma_trim_end_prefix(s.drop_last());
    }
}

/// A string whose first character is not whitespace trims to a non-empty
/// string.
pub proof fn lemma_trim_keeps_nonblank_start(s: Seq<char>)
    requires
        s.len() > 0,
        !spec_is_whitespace(s[0]),
    ensures
        spec_trim(s).len() > 0,
{
    assert(spec_trim_start(s) == s);
    lemma_trim_end_keeps_nonempty(s);
}

proof fn lemma_trim_start_empty_iff_blank(s: Seq<char>)
    ensures
        (spec_trim_start(s).len() == 0) == spec_is_blank(s),
        spec_trim_start(s).len() > 0 ==> !spec_is_whitespace(spec_trim_start(s)[0]),
    decreases s.len(),
{
    if s.len() > 0 && spec_is_whitespace(s[0]) {
        lemma_trim_start_empty_iff_blank(s.drop_first());
        if spec_is_blank(s.drop_first()) {
            assert forall|i: int| 0 <= i < s.len() implies #[trigger] spec_is_whitespace(s[i]) by {
                if i > 0 {
                    assert(s[i] == s.drop_first()[i - 1]);
                }
            }
        } else {
            let k = choose|k: int|
                0 <= k < s.drop_first().len() && !#[trigger] spec_is_whitespace(
                    s.drop_first()[k],
                );
            assert(s[k + 1] == s.drop_first()[k]);
        }
    } else if s.len() > 0 {
        assert(!spec_is_whitespace(s[0]));
    }
}

/// A string whose first character is not whitespace keeps a non-empty
/// right-trimmed form.
pub proof fn lemma_trim_end_keeps_nonempty(s: Seq<char>)
    ensures
        s.len() > 0 && !spec_is_whitespace(s[0]) ==> spec_trim_end(s).len() > 0,
        s.len() == 0 ==> spec_trim_end(s).len() == 0,
    decreases s.len(),
{
    if s.len() > 0 && spec_is_whitespace(s.last()) {
        lemma_trim_end_keeps_nonempty(s.drop_last());
    }
}

proof fn lemma_trim_start_step(s: Seq<char>, i: int)
    requires
        0 <= i < s.len(),
        spec_is_whitespace(s[i]),
    ensures
        spec_trim_start(s.subrange(i, s.len() as int)) == spec_trim_start(
            s.subrange(i + 1, s.len() as int),
        ),
{
    assert(s.subrange(i, s.len() as int).drop_first() == s.subrange(i + 1, s.len() as int));
}

proof fn lemma_trim_end_step(s: Seq<char>, i: int, j: int)
    requires
        0 <= i < j <= s.len(),
        spec_is_whitespace(s[j - 1]),
    ensures
        spec_trim_end(s.subrange(i, j)) == spec_trim_end(s.subrange(i, j - 1)),
{
    assert(s.subrange(i, j).drop_last() == s.subrange(i, j - 1));
}

/// The bounds `(start, end)` of `spec_trim(s@)` inside `s`.
fn trim_bounds(s: &[char]) -> (r: (usize, usize))
    ensures
        r.0 <= r.1 <= s@.len(),
        s@.subrange(r.0 as int, r.1 as int) == spec_trim(s@),
{
    let n = s.len();
    let mut i: usize = 0;
    assert(s@.subrange(0, n as int) == s@);
    while i < n && is_whitespace(s[i])
        invariant
            i <= n == s@.len(),
            spec_trim_start(s@) == spec_trim_start(s@.subrange(i as int, n as int)),
        decreases n - i,
    {
        proof {
            lemma_trim_start_step(s@, i as int);
        }
        i = i + 1;
    }
    let ghost rest = s@.subrange(i as int, n as int);
    assert(spec_trim_start(s@) == rest);
    let mut j: usize = n;
    while j > i && is_whitespace(s[j - 1])
        invariant
            i <= j <= n == s@.len(),
            rest == s@.subrange(i as int, n as int),
            spec_trim_end(rest) == spec_trim_end(s@.subrange(i as int, j as int)),
        decreases j,
    {
        proof {
            lemma_trim_end_step(s@, i as int, j as int);
        }
        j = j - 1;
    }
    proof {
        let t = s@.subrange(i as int, j as int);
        if t.len() > 0 {
            assert(t.last() == s@[j - 1]);
        }
    }
    (i, j)
}

/// `s` with leading and trailing whitespace removed.
pub fn trim(s: &[char]) -> (r: Vec<char>)
    ensures
        r@ == spec_trim(s@),
{
    let (a, b) = trim_bounds(s);
    let mut r: Vec<char> = Vec::new();
    for k in a..b
        invariant
            a <= b <= s@.len(),
            r@ == s@.subrange(a as int, k as int),
    {
        r.push(s[k]);
        assert(s@.subrange(a as int, k + 1) == s@.subrange(a as int, k as int).push(s@[k as int]));
    }
    r
}

/// Whether `s` is empty or all whitespace.
pub fn is_blank(s: &[char]) -> (r: bool)
    ensures
        r == spec_is_blank(s@),
        r == (spec_trim(s@).len() == 0),
{
    proof {
        lemma_trim_empty_iff_blank(s@);
    }
    let (a, b) = trim_bounds(s);
    a == b
}

/// The deep view of a vector of characters is its view.
pub proof fn lemma_char_vec_deep_view(v: Vec<char>)
    ensures
        v.deep_view() == v@,
{
    assert(v.deep_view() =~= v@);
}

// ---------------------------------------------------------------------------
// Splitting on a separator
// ---------------------------------------------------------------------------

/// The pieces of `s` between occurrences of `sep` (`str::split` with a `char`
/// pattern): always at least one piece, and `k` separators give `k + 1`
/// pieces, empty ones included.
pub open spec fn spec_split(s: Seq<char>, sep: char) -> Seq<Seq<char>>
    decreases s.len(),
{
    if s.len() == 0 {
        seq![Seq::<char>::empty()]
    } else {
        let p = spec_split(s.drop_last(), sep);
        if s.last() == sep {
            p.push(Seq::<char>::empty())
        } else {
            p.update(p.len() - 1, p.last().push(s.last()))
        }
    }
}

/// `spec_split` never yields an empty list of pieces.
pub proof fn lemma_split_nonempty(s: Seq<char>, sep: char)
    ensures
        spec_split(s, sep).len() >= 1,
    decreases s.len(),
{
    if s.len() > 0 {
        lemma_split_nonempty(s.drop_last(), sep);
    }
}

/// The first piece of `s` starts with `s`'s first character when that is not
/// the separator.
pub proof fn lemma_split_first_piece(s: Seq<char>, sep: char)
    requires
        s.len() > 0,
        s[0] != sep,
    ensures
        spec_split(s, sep).len() >= 1,
        spec_split(s, sep)[0].len() > 0,
        spec_split(s, sep)[0][0] == s[0],
    decreases s.len(),
{
    lemma_split_nonempty(s, sep);
    let p = s.drop_last();
    lemma_split_nonempty(p, sep);
    if s.len() > 1 {
        assert(p[0] == s[0]);
        lemma_split_first_piece(p, sep);
    }
}

/// A string without the separator is a single piece.
pub proof fn lemma_split_no_sep(s: Seq<char>, sep: char)
    requires
        !s.contains(sep),
    ensures
        spec_split(s, sep) == seq![s],
    decreases s.len(),
{
    if s.len() > 0 {
        let p = s.drop_last();
        assert(!p.contains(sep)) by {
            if p.contains(sep) {
                let i = choose|i: int| 0 <= i < p.len() && p[i] == sep;
                assert(s[i] == sep);
            }
        }
        lemma_split_no_sep(p, sep);
        assert(s.last() != sep) by {
            assert(s[s.len() - 1] == s.last());
        }
        assert(p.push(s.last()) =~= s);
        assert(seq![p].update(0, p.push(s.last())) =~= seq![s]);
    } else {
        assert(s =~= Seq::<char>::empty());
        assert(seq![Seq::<char>::empty()] =~= seq![s]);
    }
}

/// The first piece of `n + sep + t`, for `n` without the separator, is `n`,
/// and there is at least one more piece.
pub proof fn lemma_split_first_piece_before_sep(n: Seq<char>, sep: char, t: Seq<char>)
    requires
        !n.contains(sep),
    ensures
        spec_split(n + seq![sep] + t, sep).len() >= 2,
        spec_split(n + seq![sep] + t, sep)[0] == n,
    decreases t.len(),
{
    let s = n + seq![sep] + t;
    if t.len() == 0 {
        assert(s.drop_last() =~= n);
        assert(s.last() == sep);
        lemma_split_no_sep(n, sep);
    } else {
        lemma_split_first_piece_before_sep(n, sep, t.drop_last());
        assert(s.drop_last() =~= n + seq![sep] + t.drop_last());
    }
}

/// The pieces of `s` between occurrences of `sep`.
pub fn split_on(s: &[char], sep: char) -> (r: Vec<Vec<char>>)
    ensures
        r.deep_view() == spec_split(s@, sep),
{
    let n = s.len();
    let mut done: Vec<Vec<char>> = Vec::new();
    let mut cur: Vec<char> = Vec::new();
    assert(s@.take(0) == Seq::<char>::empty());
    for i in 0..n
        invariant
            n == s@.len(),
            done.deep_view().push(cur@) == spec_split(s@.take(i as int), sep),
    {
        let c = s[i];
        let ghost before = done.deep_view();
        let ghost t = s@.take(i + 1);
        assert(t.drop_last() == s@.take(i as int));
        assert(t.last() == c);
        proof {
            lemma_split_nonempty(s@.take(i as int), sep);
        }
        if c == sep {
            let finished = cur;
            done.push(finished);
            cur = Vec::new();
            proof {
                lemma_char_vec_deep_view(finished);
            }
            assert(done.deep_view() =~~= before.push(finished@));
        } else {
            cur.push(c);
            assert(done.deep_view().push(cur@) == before.push(cur@.drop_last()).update(
                before.len() as int,
                cur@,
            ));
        }
    }
    assert(s@.take(n as int) == s@);
    let ghost before = done.deep_view();
    proof {
        lemma_char_vec_deep_view(cur);
    }
    done.push(cur);
    assert(done.deep_view() =~~= before.push(cur@));
    done
}

// ---------------------------------------------------------------------------
// Whitespace-separated words
// ---------------------------------------------------------------------------

/// The maximal runs of non-whitespace characters of `s`, in order
/// (`str::split_whitespace`).
pub open spec fn spec_words(s: Seq<char>) -> Seq<Seq<char>>
    decreases s.len(),
{
    if s.len() == 0 {
        Seq::empty()
    } else {
        let w = spec_words(s.drop_last());
        let c = s.last();
        if spec_is_whitespace(c) {
            w
        } else if s.len() >= 2 && !spec_is_whitespace(s[s.len() - 2]) {
            w.update(w.len() - 1, w.last().push(c))
        } else {
            w.push(seq![c])
        }
    }
}

/// When `s` ends inside a word, there is at least one word, and the last word
/// ends with the last character of `s`.
pub proof fn lemma_words_last(s: Seq<char>)
    requires
        s.len() > 0,
        !spec_is_whitespace(s.last()),
    ensures
        spec_words(s).len() >= 1,
        spec_words(s).last().len() >= 1,
        spec_words(s).last().last() == s.last(),
    decreases s.len(),
{
    if s.len() >= 2 && !spec_is_whitespace(s[s.len() - 2]) {
        assert(s.drop_last().last() == s[s.len() - 2]);
        lemma_words_last(s.drop_last());
    }
}

/// Every word is non-empty and free of whitespace, and the words, joined,
/// give back the non-whitespace characters of `s` in order.
pub proof fn lemma_words_shape(s: Seq<char>)
    ensures
        forall|k: int|
            0 <= k < spec_words(s).len() ==> (#[trigger] spec_words(s)[k]).len() > 0,
        forall|k: int, j: int|
            0 <= k < spec_words(s).len() && 0 <= j < spec_words(s)[k].len()
                ==> !spec_is_whitespace(#[trigger] spec_words(s)[k][j]),
        spec_words(s).flatten() == s.filter(|c: char| !spec_is_whitespace(c)),
    decreases s.len(),
{
    let pred = |c: char| !spec_is_whitespace(c);
    if s.len() == 0 {
        assert(s.filter(pred) == Seq::<char>::empty()) by {
            reveal(Seq::filter);
        }
        assert(spec_words(s).flatten() == Seq::<char>::empty()) by {
            reveal(Seq::flatten);
        }
    } else {
        let p = s.drop_last();
        let w = spec_words(p);
        let c = s.last();
        lemma_words_shape(p);
        assert(s.filter(pred) == if pred(c) {
            p.filter(pred).push(c)
        } else {
            p.filter(pred)
        }) by {
            reveal(Seq::filter);
            assert(s == p.push(c));
        }
        if spec_is_whitespace(c) {
        } else if s.len() >= 2 && !spec_is_whitespace(s[s.len() - 2]) {
            assert(p.last() == s[s.len() - 2]);
            lemma_words_last(p);
            let nw = spec_words(s);
            assert(nw == w.update(w.len() - 1, w.last().push(c)));
            lemma_flatten_update_last(w, c);
        } else {
            let nw = spec_words(s);
            assert(nw == w.push(seq![c]));
            lemma_flatten_push(w, seq![c]);
            assert(w.flatten() + seq![c] == w.flatten().push(c));
        }
    }
}

proof fn lemma_flatten_push(w: Seq<Seq<char>>, x: Seq<char>)
    ensures
        w.push(x).flatten() == w.flatten() + x,
    decreases w.len(),
{
    reveal(Seq::flatten);
    if w.len() == 0 {
        assert(w.push(x).drop_first() == Seq::<Seq<char>>::empty());
        assert(w.push(x).flatten() == x + Seq::<Seq<char>>::empty().flatten());
        assert(x + Seq::<char>::empty() == x);
        assert(Seq::<char>::empty() + x == x);
    } else {
        lemma_flatten_push(w.drop_first(), x);
        assert(w.push(x).drop_first() == w.drop_first().push(x));
        assert(w.push(x).flatten() == w[0] + w.drop_first().push(x).flatten());
        assert(w[0] + (w.drop_first().flatten() + x) == (w[0] + w.drop_first().flatten()) + x);
    }
}

proof fn lemma_flatten_update_last(w: Seq<Seq<char>>, c: char)
    requires
        w.len() >= 1,
    ensures
        w.update(w.len() - 1, w.last().push(c)).flatten() == w.flatten().push(c),
{
    let init = w.drop_last();
    assert(w == init.push(w.last()));
    assert(w.update(w.len() - 1, w.last().push(c)) == init.push(w.last().push(c)));
    lemma_flatten_push(init, w.last().push(c));
    lemma_flatten_push(init, w.last());
    assert(init.flatten() + w.last().push(c) == (init.flatten() + w.last()).push(c));
}

/// The whitespace-separated words of `s`.
pub fn words(s: &[char]) -> (r: Vec<Vec<char>>)
    ensures
        r.deep_view() == spec_words(s@),
{
    let n = s.len();
    let mut done: Vec<Vec<char>> = Vec::new();
    let mut cur: Vec<char> = Vec::new();
    let mut in_word = false;
    assert(s@.take(0) == Seq::<char>::empty());
    for i in 0..n
        invariant
            n == s@.len(),
            in_word == (i > 0 && !spec_is_whitespace(s@[i - 1])),
            in_word ==> cur@.len() > 0,
            !in_word ==> cur@.len() == 0,
            spec_words(s@.take(i as int)) == if in_word {
                done.deep_view().push(cur@)
            } else {
                done.deep_view()
            },
    {
        let c = s[i];
        let ghost before = done.deep_view();
        let ghost t = s@.take(i + 1);
        assert(t.drop_last() == s@.take(i as int));
        assert(t.last() == c);
        if i >= 1 {
            assert(t[t.len() - 2] == s@[i - 1]);
        }
        if is_whitespace(c) {
            if in_word {
                let finished = cur;
                done.push(finished);
                cur = Vec::new();
                proof {
                lemma_char_vec_deep_view(finished);
            }
            assert(done.deep_view() =~~= before.push(finished@));
            }
            in_word = false;
        } else {
            cur.push(c);
            if in_word {
                assert(cur@ == cur@.drop_last().push(c));
                assert(before.push(cur@) =~= before.push(cur@.drop_last()).update(
                    before.len() as int,
                    cur@.drop_last().push(c),
                ));
            } else {
                assert(cur@ == seq![c]);
            }
            in_word = true;
        }
    }
    assert(s@.take(n as int) == s@);
    if in_word {
        let ghost before = done.deep_view();
        proof {
            lemma_char_vec_deep_view(cur);
        }
        done.push(cur);
        assert(done.deep_view() =~~= before.push(cur@));
    }
    done
}

// ---------------------------------------------------------------------------
// ASCII case folding
// ---------------------------------------------------------------------------

/// `c` with `A..=Z` mapped to `a..=z` (`char::to_ascii_lowercase`), as a code
/// point.
pub open spec fn spec_ascii_lower(c: char) -> u32 {
    let u = c as u32;
    if 0x41 <= u <= 0x5A {
        (u + 0x20) as u32
    } else {
        u
    }
}

/// `c`'s ASCII-lowercased code point.
pub fn ascii_lower(c: char) -> (r: u32)
    ensures
        r == spec_ascii_lower(c),
{
    let u = c as u32;
    if 0x41 <= u && u <= 0x5A {
        u + 0x20
    } else {
        u
    }
}

/// `a` and `b` are equal up to ASCII case (`str::eq_ignore_ascii_case`).
pub open spec fn spec_eq_ignore_ascii_case(a: Seq<char>, b: Seq<char>) -> bool {
    &&& a.len() == b.len()
    &&& forall|i: int| 0 <= i < a.len() ==> spec_ascii_lower(#[trigger] a[i]) == spec_ascii_lower(b[i])
}

/// Whether `a` and `b` are equal up to ASCII case.
pub fn eq_ignore_ascii_case(a: &[char], b: &[char]) -> (r: bool)
    ensures
        r == spec_eq_ignore_ascii_case(a@, b@),
{
    if a.len() != b.len() {
        return false;
    }
    let n = a.len();
    for i in 0..n
        invariant
            n == a@.len() == b@.len(),
            forall|k: int| 0 <= k < i ==> spec_ascii_lower(#[trigger] a@[k]) == spec_ascii_lower(b@[k]),
    {
        if ascii_lower(a[i]) != ascii_lower(b[i]) {
            return false;
        }
    }
    true
}

// ---------------------------------------------------------------------------
// Decimal parsing
// ---------------------------------------------------------------------------

/// Whether `c` is one of `0..=9`.
pub open spec fn spec_is_ascii_digit(c: char) -> bool {
    0x30 <= (c as u32) <= 0x39
}

/// The value of the decimal digit string `d` (most significant first).
pub open spec fn spec_digits_value(d: Seq<char>) -> nat
    decreases d.len(),
{
    if d.len() == 0 {
        0
    } else {
        spec_digits_value(d.drop_last()) * 10 + ((d.last() as u32) - 0x30) as nat
    }
}

/// `s` without one leading `+`, if it has one.
pub open spec fn spec_unsigned_digits(s: Seq<char>) -> Seq<char> {
    if s.len() > 0 && s[0] == '+' {
        s.drop_first()
    } else {
        s
    }
}

/// Every character of `d` is an ASCII digit.
pub open spec fn spec_all_digits(d: Seq<char>) -> bool {
    forall|i: int| 0 <= i < d.len() ==> #[trigger] spec_is_ascii_digit(d[i])
}

/// What `str::parse::<u32>` accepts: an optional `+`, then one or more ASCII
/// digits whose value fits in a `u32`.
pub open spec fn spec_parse_u32(s: Seq<char>) -> Option<u32> {
    let d = spec_unsigned_digits(s);
    if d.len() > 0 && spec_all_digits(d) && spec_digits_value(d) <= u32::MAX {
        Some(spec_digits_value(d) as u32)
    } else {
        None
    }
}

proof fn lemma_digits_value_monotone(d: Seq<char>, i: int, j: int)
    requires
        0 <= i <= j <= d.len(),
        forall|k: int| 0 <= k < d.len() ==> #[trigger] spec_is_ascii_digit(d[k]),
    ensures
        spec_digits_value(d.take(i)) <= spec_digits_value(d.take(j)),
    decreases j - i,
{
    if i < j {
        lemma_digits_value_monotone(d, i, j - 1);
        assert(d.take(j).drop_last() == d.take(j - 1));
    }
}

/// Parses a decimal `u32` as `str::parse::<u32>` does.
pub fn parse_u32(s: &[char]) -> (r: Option<u32>)
    ensures
        r == spec_parse_u32(s@),
{
    let n = s.len();
    let start: usize = if n > 0 && s[0] == '+' {
        1
    } else {
        0
    };
    let ghost d = spec_unsigned_digits(s@);
    assert(d == s@.subrange(start as int, n as int));
    if start == n {
        return None;
    }
    let mut acc: u64 = 0;
    let mut i: usize = start;
    assert(d.take(0) == Seq::<char>::empty());
    while i < n
        invariant
            start <= i <= n == s@.len(),
            d == s@.subrange(start as int, n as int),
            d == spec_unsigned_digits(s@),
            forall|k: int| 0 <= k < i - start ==> #[trigger] spec_is_ascii_digit(d[k]),
            acc == spec_digits_value(d.take(i - start)),
            acc <= u32::MAX,
        decreases n - i,
    {
        let c = s[i];
        let u = c as u32;
        assert(d[i - start] == c);
        if u < 0x30 || u > 0x39 {
            assert(!spec_is_ascii_digit(d[i - start]));
            return None;
        }
        let ghost t = d.take(i - start + 1);
        assert(t.drop_last() == d.take(i - start));
        assert(t.last() == c);
        let next = acc * 10 + (u - 0x30) as u64;
        assert(spec_digits_value(t) == next);
        if next > 0xFFFF_FFFF {
            proof {
                // Either a later character is not a digit, or the whole value is
                // at least this prefix's value.
                if spec_all_digits(d) {
                    lemma_digits_value_monotone(d, i - start + 1, d.len() as int);
                    assert(d.take(d.len() as int) == d);
                }
            }
            return None;
        }
        acc = next;
        i = i + 1;
    }
    assert(d.take(n - start) == d);
    Some(acc as u32)
}

// ---------------------------------------------------------------------------
// Unicode properties taken from the standard library
// ---------------------------------------------------------------------------

/// What `str::to_lowercase` returns for a string with the characters `s`.
pub uninterp spec fn lowercase(s: Seq<char>) -> Seq<char>;

/// Unicode lower-casing (`str::to_lowercase`). Rust's case mapping takes no
/// locale, so the result is a function of the characters alone; the mapping
/// itself (the Unicode case tables) is left unstated and only named here.
#[verifier::external_body]
pub(crate) fn to_lowercase(s: &str) -> (r: String)
    ensures
        r@ == lowercase(s@),
{
    s.to_lowercase()
}

/// What `char::is_numeric` returns for `c`.
pub uninterp spec fn numeric_char(c: char) -> bool;

/// Whether `c` is in a Unicode numeric category (`Nd`, `Nl` or `No`),
/// as `char::is_numeric` decides. The category tables are left unstated and
/// only named here.
#[verifier::external_body]
pub(crate) fn is_numeric(c: char) -> (r: bool)
    ensures
        r == numeric_char(c),
{
    c.is_numeric()
}

// ---------------------------------------------------------------------------
// Lexicographic order
// ---------------------------------------------------------------------------

/// `a` sorts strictly before `b`, character by character (code points), a
/// proper prefix first. This is the order of `String`'s `Ord`, which compares
/// UTF-8 bytes, and UTF-8 preserves code-point order.
pub open spec fn spec_lex_lt(a: Seq<char>, b: Seq<char>) -> bool
    decreases a.len(),
{
    if a.len() == 0 {
        b.len() > 0
    } else if b.len() == 0 {
        false
    } else if a[0] != b[0] {
        (a[0] as u32) < (b[0] as u32)
    } else {
        spec_lex_lt(a.drop_first(), b.drop_first())
    }
}

/// The order is irreflexive.
pub proof fn lemma_lex_irreflexive(a: Seq<char>)
    ensures
        !spec_lex_lt(a, a),
    decreases a.len(),
{
    if a.len() > 0 {
        lemma_lex_irreflexive(a.drop_first());
    }
}

/// Two different sequences are ordered one way or the other, never both.
pub proof fn lemma_lex_total(a: Seq<char>, b: Seq<char>)
    ensures
        a != b ==> (spec_lex_lt(a, b) || spec_lex_lt(b, a)),
        !(spec_lex_lt(a, b) && spec_lex_lt(b, a)),
    decreases a.len(),
{
    if a.len() > 0 && b.len() > 0 && a[0] == b[0] {
        lemma_lex_total(a.drop_first(), b.drop_first());
        if a != b {
            assert(a.drop_first() != b.drop_first()) by {
                if a.drop_first() == b.drop_first() {
                    assert forall|i: int| 0 <= i < a.len() implies a[i] == b[i] by {
                        if i > 0 {
                            assert(a[i] == a.drop_first()[i - 1]);
                            assert(b[i] == b.drop_first()[i - 1]);
                        }
                    }
                    assert(a =~= b);
                }
            }
        }
    } else if a.len() == 0 && b.len() == 0 {
        assert(a =~= b);
    } else if a.len() > 0 && b.len() > 0 {
        vstd::utf8::char_u32_cast(a[0], a[0] as u32);
        vstd::utf8::char_u32_cast(b[0], b[0] as u32);
        assert((a[0] as u32) != (b[0] as u32));
    }
}

/// The order is transitive.
pub proof fn lemma_lex_transitive(a: Seq<char>, b: Seq<char>, c: Seq<char>)
    requires
        spec_lex_lt(a, b),
        spec_lex_lt(b, c),
    ensures
        spec_lex_lt(a, c),
    decreases a.len(),
{
    if a.len() > 0 && b.len() > 0 && c.len() > 0 && a[0] == b[0] && b[0] == c[0] {
        lemma_lex_transitive(a.drop_first(), b.drop_first(), c.drop_first());
    }
}

/// Whether `a` sorts strictly before `b`.
pub fn lex_lt(a: &[char], b: &[char]) -> (r: bool)
    ensures
        r == spec_lex_lt(a@, b@),
{
    let n = a.len();
    let m = b.len();
    let mut i: usize = 0;
    assert(a@.subrange(0, n as int) == a@);
    assert(b@.subrange(0, m as int) == b@);
    while i < n && i < m && a[i] == b[i]
        invariant
            i <= n == a@.len(),
            i <= m == b@.len(),
            spec_lex_lt(a@, b@) == spec_lex_lt(a@.subrange(i as int, n as int), b@.subrange(i as int, m as int)),
        decreases n - i,
    {
        assert(a@.subrange(i as int, n as int).drop_first() == a@.subrange(i + 1, n as int));
        assert(b@.subrange(i as int, m as int).drop_first() == b@.subrange(i + 1, m as int));
        i = i + 1;
    }
    if i == n {
        i < m
    } else if i == m {
        false
    } else {
        (a[i] as u32) < (b[i] as u32)
    }
}

} // verus!
