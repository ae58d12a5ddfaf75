//! Character-level text operations: whitespace trimming, literal-marker
//! search and splitting, and marker removal, each stated over `Seq<char>`.
use vstd::prelude::*;
use vstd::string::*;

verus! {

/// The characters that Rust's `char::is_whitespace` accepts (Unicode White_Space).
pub open spec fn is_ws(c: char) -> bool {
    ||| c == '\t'
    ||| c == '\n'
    ||| c == '\u{0B}'
    ||| c == '\u{0C}'
    ||| c == '\r'
    ||| c == ' '
    ||| c == '\u{85}'
    ||| c == '\u{A0}'
    ||| c == '\u{1680}'
    ||| (0x2000 <= (c as u32) && (c as u32) <= 0x200A)
    ||| c == '\u{2028}'
    ||| c == '\u{2029}'
    ||| c == '\u{202F}'
    ||| c == '\u{205F}'
    ||| c == '\u{3000}'
}

/// `s` without its leading whitespace.
pub open spec fn trim_front(s: Seq<char>) -> Seq<char>
    decreases s.len(),
{
    if s.len() > 0 && is_ws(s[0]) {
        trim_front(s.drop_first())
    } else {
        s
    }
}

/// `s` without its trailing whitespace.
pub open spec fn trim_back(s: Seq<char>) -> Seq<char>
    decreases s.len(),
{
    if s.len() > 0 && is_ws(s.last()) {
        trim_back(s.drop_last())
    } else {
        s
    }
}

/// `s` without leading and trailing whitespace, as `str::trim` gives it.
pub open spec fn trim(s: Seq<char>) -> Seq<char> {
    trim_back(trim_front(s))
}

/// `p` stands in `s` at position `i`.
pub open spec fn occurs_at(s: Seq<char>, p: Seq<char>, i: int) -> bool {
    0 <= i && i + p.len() <= s.len() && s.subrange(i, i + p.len()) == p
}

/// The leftmost position at or after `i` where `p` stands in `s`.
pub open spec fn match_from(s: Seq<char>, p: Seq<char>, i: int) -> Option<int>
    decreases s.len() + 1 - i,
{
    if i < 0 || i + p.len() > s.len() {
        None
    } else if occurs_at(s, p, i) {
        Some(i)
    } else {
        match_from(s, p, i + 1)
    }
}

/// The pieces of `s` between the non-overlapping, leftmost occurrences of the
/// non-empty marker `p`, as `str::split` yields them.
pub open spec fn split_on(s: Seq<char>, p: Seq<char>) -> Seq<Seq<char>>
    decreases s.len(),
{
    let m = match_from(s, p, 0);
    if p.len() > 0 && m is Some && 0 <= m->0 && m->0 + p.len() <= s.len() {
        let i = m->0;
        seq![s.subrange(0, i)] + split_on(s.subrange(i + p.len(), s.len() as int), p)
    } else {
        seq![s]
    }
}

/// The pieces one after the other.
pub open spec fn concat(parts: Seq<Seq<char>>) -> Seq<char>
    decreases parts.len(),
{
    if parts.len() == 0 {
        Seq::empty()
    } else {
        concat(parts.drop_last()) + parts.last()
    }
}

/// The pieces with `sep` between each two neighbours.
pub open spec fn join(parts: Seq<Seq<char>>, sep: Seq<char>) -> Seq<char>
    decreases parts.len(),
{
    if parts.len() == 0 {
        Seq::empty()
    } else if parts.len() == 1 {
        parts[0]
    } else {
        join(parts.drop_last(), sep) + sep + parts.last()
    }
}

/// `s` with every occurrence of `p` taken out, as `str::replace(p, "")` gives it.
pub open spec fn remove_all(s: Seq<char>, p: Seq<char>) -> Seq<char> {
    concat(split_on(s, p))
}

/// The views of a vector of character vectors.
pub open spec fn views(v: Seq<Vec<char>>) -> Seq<Seq<char>> {
    v.map_values(|x: Vec<char>| x@)
}

/// Whether `c` is whitespace in the sense of `is_ws`.
pub fn is_whitespace(c: char) -> (r: bool)
    ensures
        r == is_ws(c),
{
    let u = c as u32;
    u == 0x09 || u == 0x0A || u == 0x0B || u == 0x0C || u == 0x0D || u == 0x20 || u == 0x85
        || u == 0xA0 || u == 0x1680 || (0x2000 <= u && u <= 0x200A) || u == 0x2028 || u
        == 0x2029 || u == 0x202F || u == 0x205F || u == 0x3000
}

/// What `match_from` finds: the first position at or after `i` where `p`
/// stands, and none before it; or, when nothing is found, no position at all.
pub proof fn lemma_match_from(s: Seq<char>, p: Seq<char>, i: int)
    requires
        0 <= i,
    ensures
        match_from(s, p, i) is Some ==> {
            let x = match_from(s, p, i)->0;
            &&& i <= x
            &&& occurs_at(s, p, x)
            &&& forall|j: int| i <= j < x ==> !occurs_at(s, p, j)
        },
        match_from(s, p, i) is None ==> forall|j: int| i <= j ==> !occurs_at(s, p, j),
    decreases s.len() + 1 - i,
{
    if i + p.len() <= s.len() && !occurs_at(s, p, i) {
        lemma_match_from(s, p, i + 1);
    }
}

/// `p` stands nowhere in `s`.
pub open spec fn free_of(s: Seq<char>, p: Seq<char>) -> bool {
    forall|i: int| !occurs_at(s, p, i)
}

/// `s` neither starts nor ends with whitespace.
pub open spec fn is_trimmed(s: Seq<char>) -> bool {
    s.len() == 0 || (!is_ws(s[0]) && !is_ws(s.last()))
}

/// Where `p` stands at `x` and nowhere from `i` up to `x`, the search from
/// `i` finds `x`.
pub proof fn lemma_match_first(s: Seq<char>, p: Seq<char>, i: int, x: int)
    requires
        0 <= i <= x,
        occurs_at(s, p, x),
        forall|j: int| i <= j < x ==> !occurs_at(s, p, j),
    ensures
        match_from(s, p, i) == Some(x),
    decreases x - i,
{
    if i < x {
        lemma_match_first(s, p, i + 1, x);
    }
}

/// A text free of `p` is left in one piece.
pub proof fn lemma_split_free(s: Seq<char>, p: Seq<char>)
    requires
        free_of(s, p),
    ensures
        split_on(s, p) == seq![s],
{
    lemma_match_from(s, p, 0);
}

/// A text that lacks the first character of `p` is free of `p`.
pub proof fn lemma_free_without_head(s: Seq<char>, p: Seq<char>)
    requires
        p.len() > 0,
        forall|k: int| 0 <= k < s.len() ==> s[k] != p[0],
    ensures
        free_of(s, p),
{
    assert forall|i: int| !occurs_at(s, p, i) by {
        if occurs_at(s, p, i) {
            assert(s.subrange(i, i + p.len())[0] == p[0]);
        }
    }
}

/// Two texts free of `p` stay free of it side by side, where no occurrence
/// can straddle the seam: `p` lacks the last character of `x` or the first
/// of `y`.
pub proof fn lemma_free_concat(x: Seq<char>, y: Seq<char>, p: Seq<char>)
    requires
        p.len() > 0,
        free_of(x, p),
        free_of(y, p),
        x.len() > 0 && y.len() > 0 ==> !p.contains(x.last()) || !p.contains(y[0]),
    ensures
        free_of(x + y, p),
{
    let s = x + y;
    assert forall|i: int| !occurs_at(s, p, i) by {
        if occurs_at(s, p, i) {
            if i + p.len() <= x.len() {
                assert(s.subrange(i, i + p.len()) =~= x.subrange(i, i + p.len()));
                assert(occurs_at(x, p, i));
            } else if i >= x.len() {
                let j = i - x.len();
                assert(s.subrange(i, i + p.len()) =~= y.subrange(j, j + p.len()));
                assert(occurs_at(y, p, j));
            } else {
                let w = s.subrange(i, i + p.len());
                assert(w[x.len() - 1 - i] == x.last());
                assert(w[x.len() - i] == y[0]);
                assert(p.contains(x.last()));
                assert(p.contains(y[0]));
            }
        }
    }
}

/// `a`, then the marker `p`, then `b` splits into `a` and `b` where neither
/// holds `p` and no occurrence straddles the seam before the marker.
pub proof fn lemma_split_once(a: Seq<char>, p: Seq<char>, b: Seq<char>)
    requires
        p.len() > 0,
        free_of(a, p),
        free_of(b, p),
        a.len() > 0 && p.len() > 1 ==> !p.contains(a.last()),
    ensures
        split_on(a + p + b, p) == seq![a, b],
{
    let s = a + p + b;
    assert(s.subrange(a.len() as int, (a.len() + p.len()) as int) =~= p);
    assert forall|j: int| 0 <= j < a.len() implies !occurs_at(s, p, j) by {
        if occurs_at(s, p, j) {
            if j + p.len() <= a.len() {
                assert(s.subrange(j, j + p.len()) =~= a.subrange(j, j + p.len()));
                assert(occurs_at(a, p, j));
            } else {
                let w = s.subrange(j, j + p.len());
                assert(w[a.len() - 1 - j] == a.last());
                assert(p.contains(a.last()));
            }
        }
    }
    lemma_match_first(s, p, 0, a.len() as int);
    assert(s.subrange(0, a.len() as int) =~= a);
    assert(s.subrange((a.len() + p.len()) as int, s.len() as int) =~= b);
    lemma_split_free(b, p);
}

/// Splitting on one character: appending that character and a text without
/// it appends that text as one more piece.
pub proof fn lemma_split_char_append(x: Seq<char>, c: char, b: Seq<char>)
    requires
        !b.contains(c),
    ensures
        split_on(x + seq![c] + b, seq![c]) == split_on(x, seq![c]).push(b),
    decreases x.len(),
{
    let p = seq![c];
    let s = x + p + b;
    assert forall|k: int| 0 <= k < b.len() implies b[k] != p[0] by {
        if b[k] == c {
            assert(b.contains(c));
        }
    }
    lemma_free_without_head(b, p);
    lemma_match_from(x, p, 0);
    match match_from(x, p, 0) {
        None => {
            lemma_split_once(x, p, b);
            lemma_split_free(x, p);
        },
        Some(i) => {
            let x1 = x.subrange(0, i);
            let x2 = x.subrange(i + 1, x.len() as int);
            assert(s.subrange(i, i + 1) =~= x.subrange(i, i + 1));
            assert forall|j: int| 0 <= j < i implies !occurs_at(s, p, j) by {
                assert(!occurs_at(x, p, j));
                assert(s.subrange(j, j + 1) =~= x.subrange(j, j + 1));
            }
            lemma_match_first(s, p, 0, i);
            assert(s.subrange(0, i) =~= x1);
            assert(s.subrange(i + 1, s.len() as int) =~= x2 + p + b);
            lemma_split_char_append(x2, c, b);
            assert(split_on(s, p) =~= split_on(x, p).push(b));
        },
    }
}

/// Whitespace before a text that does not start with whitespace is trimmed away.
pub proof fn lemma_trim_front_ws(pre: Seq<char>, t: Seq<char>)
    requires
        forall|k: int| 0 <= k < pre.len() ==> is_ws(pre[k]),
        t.len() == 0 || !is_ws(t[0]),
    ensures
        trim_front(pre + t) == t,
    decreases pre.len(),
{
    if pre.len() == 0 {
        assert(pre + t =~= t);
    } else {
        assert((pre + t).drop_first() =~= pre.drop_first() + t);
        lemma_trim_front_ws(pre.drop_first(), t);
    }
}

/// Whitespace after a text that does not end with whitespace is trimmed away.
pub proof fn lemma_trim_back_ws(t: Seq<char>, post: Seq<char>)
    requires
        forall|k: int| 0 <= k < post.len() ==> is_ws(post[k]),
        t.len() == 0 || !is_ws(t.last()),
    ensures
        trim_back(t + post) == t,
    decreases post.len(),
{
    if post.len() == 0 {
        assert(t + post =~= t);
    } else {
        assert((t + post).drop_last() =~= t + post.drop_last());
        lemma_trim_back_ws(t, post.drop_last());
    }
}

/// A trimmed text with whitespace around it trims back to itself.
pub proof fn lemma_trim_padded(pre: Seq<char>, t: Seq<char>, post: Seq<char>)
    requires
        forall|k: int| 0 <= k < pre.len() ==> is_ws(pre[k]),
        forall|k: int| 0 <= k < post.len() ==> is_ws(post[k]),
        is_trimmed(t),
    ensures
        trim(pre + t + post) == t,
{
    if t.len() == 0 {
        let w = pre + post;
        assert(pre + t + post =~= w + t);
        assert forall|k: int| 0 <= k < w.len() implies is_ws(w[k]) by {
            if k < pre.len() {
                assert(w[k] == pre[k]);
            } else {
                assert(w[k] == post[k - pre.len()]);
            }
        }
        lemma_trim_front_ws(w, t);
    } else {
        assert(pre + t + post =~= pre + (t + post));
        lemma_trim_front_ws(pre, t + post);
        lemma_trim_back_ws(t, post);
    }
}

/// Where `p` is searched for in the tail of `s` that starts at `k`, the
/// positions found are those found in `s`, moved by `k`.
pub proof fn lemma_match_shift(s: Seq<char>, p: Seq<char>, k: int, j: int)
    requires
        0 <= k <= s.len(),
        0 <= j,
    ensures
        match_from(s, p, k + j) is None ==> match_from(s.subrange(k, s.len() as int), p, j) is None,
        match_from(s, p, k + j) is Some ==> match_from(s.subrange(k, s.len() as int), p, j)
            == Some(match_from(s, p, k + j)->0 - k),
    decreases s.len() + 1 - k - j,
{
    let r = s.subrange(k, s.len() as int);
    if j + p.len() <= r.len() {
        assert(r.subrange(j, j + p.len()) =~= s.subrange(k + j, k + j + p.len()));
        if !occurs_at(s, p, k + j) {
            lemma_match_shift(s, p, k, j + 1);
            assert(k + (j + 1) == k + j + 1);
        }
    }
}

/// The characters of `s`, in order.
pub fn chars_of(s: &str) -> (r: Vec<char>)
    ensures
        r@ == s@,
{
    let n = s.unicode_len();
    let mut r: Vec<char> = Vec::new();
    let mut i: usize = 0;
    while i < n
        invariant
            n == s@.len(),
            i <= n,
            r@ == s@.take(i as int),
        decreases n - i,
    {
        let c = s.get_char(i);
        r.push(c);
        i = i + 1;
        assert(r@ =~= s@.take(i as int));
    }
    assert(r@ =~= s@);
    r
}

/// Relies on `String::push`: the character is appended at the end.
#[verifier::external_body]
fn push_char(s: &mut String, c: char)
    ensures
        final(s)@ == old(s)@.push(c),
{
    s.push(c);
}

/// The string made of the characters of `v`, in order.
pub fn string_of(v: &Vec<char>) -> (r: String)
    ensures
        r@ == v@,
{
    let mut r = String::new();
    let mut i: usize = 0;
    while i < v.len()
        invariant
            i <= v.len(),
            r@ == v@.take(i as int),
        decreases v.len() - i,
    {
        push_char(&mut r, v[i]);
        i = i + 1;
        assert(r@ =~= v@.take(i as int));
    }
    assert(r@ =~= v@);
    r
}

/// The characters of `s` from `a` up to, not including, `b`.
pub fn copy_range(s: &Vec<char>, a: usize, b: usize) -> (r: Vec<char>)
    requires
        a <= b <= s.len(),
    ensures
        r@ == s@.subrange(a as int, b as int),
{
    let mut r: Vec<char> = Vec::new();
    let mut i: usize = a;
    while i < b
        invariant
            a <= i <= b,
            b <= s.len(),
            r@ == s@.subrange(a as int, i as int),
        decreases b - i,
    {
        r.push(s[i]);
        i = i + 1;
        assert(r@ =~= s@.subrange(a as int, i as int));
    }
    r
}

/// Whether `p` stands in `s` at position `i`.
fn occurs_at_exec(s: &Vec<char>, p: &Vec<char>, i: usize) -> (r: bool)
    requires
        i + p.len() <= s.len(),
    ensures
        r == occurs_at(s@, p@, i as int),
{
    let mut j: usize = 0;
    while j < p.len()
        invariant
            j <= p.len(),
            i + p.len() <= s.len(),
            forall|t: int| 0 <= t < j ==> s@[i + t] == p@[t],
        decreases p.len() - j,
    {
        if s[i + j] != p[j] {
            assert(s@.subrange(i as int, i + p.len())[j as int] != p@[j as int]);
            return false;
        }
        j = j + 1;
    }
    assert(s@.subrange(i as int, i + p.len()) =~= p@);
    true
}

/// The leftmost position at or after `from` where `p` stands in `s`.
pub fn find_from(s: &Vec<char>, p: &Vec<char>, from: usize) -> (r: Option<usize>)
    requires
        p.len() > 0,
    ensures
        r is None ==> match_from(s@, p@, from as int) is None,
        r is Some ==> match_from(s@, p@, from as int) == Some(r->0 as int),
{
    let mut i: usize = from;
    while p.len() <= s.len() && i <= s.len() - p.len()
        invariant
            from <= i,
            p.len() > 0,
            match_from(s@, p@, from as int) == match_from(s@, p@, i as int),
        decreases s.len() + 1 - i,
    {
        if occurs_at_exec(s, p, i) {
            return Some(i);
        }
        i = i + 1;
    }
    None
}

/// The pieces of `s` between the occurrences of the marker `p`.
pub fn split_chars(s: &Vec<char>, p: &Vec<char>) -> (r: Vec<Vec<char>>)
    requires
        p.len() > 0,
    ensures
        views(r@) == split_on(s@, p@),
{
    let n = s.len();
    let mut parts: Vec<Vec<char>> = Vec::new();
    let mut pos: usize = 0;
    assert(s@.subrange(0, n as int) =~= s@);
    assert(views(parts@) =~= Seq::<Seq<char>>::empty());
    loop
        invariant
            n == s.len(),
            p.len() > 0,
            pos <= n,
            split_on(s@, p@) == views(parts@) + split_on(s@.subrange(pos as int, n as int), p@),
        decreases n - pos,
    {
        let ghost rest = s@.subrange(pos as int, n as int);
        let ghost old_parts = parts@;
        proof {
            lemma_match_shift(s@, p@, pos as int, 0);
            lemma_match_from(s@, p@, pos as int);
        }
        match find_from(s, p, pos) {
            Some(i) => {
                let piece = copy_range(s, pos, i);
                assert(rest.subrange(0, i - pos) =~= piece@);
                assert(rest.subrange(i - pos + p.len(), rest.len() as int) =~= s@.subrange(
                    (i + p.len()) as int,
                    n as int,
                ));
                parts.push(piece);
                assert(views(parts@) =~= views(parts@.drop_last()) + seq![piece@]);
                assert(parts@.drop_last() == old_parts);
                pos = i + p.len();
            },
            None => {
                let piece = copy_range(s, pos, n);
                parts.push(piece);
                assert(views(parts@) =~= views(parts@.drop_last()) + seq![piece@]);
                assert(parts@.drop_last() == old_parts);
                return parts;
            },
        }
    }
}

/// `s` without leading and trailing whitespace.
pub fn trim_chars(s: &Vec<char>) -> (r: Vec<char>)
    ensures
        r@ == trim(s@),
{
    let n = s.len();
    let mut lo: usize = 0;
    assert(s@.subrange(0, n as int) =~= s@);
    while lo < n && is_whitespace(s[lo])
        invariant
            n == s.len(),
            lo <= n,
            trim_front(s@) == trim_front(s@.subrange(lo as int, n as int)),
        decreases n - lo,
    {
        assert(s@.subrange(lo as int, n as int).drop_first() =~= s@.subrange(lo + 1, n as int));
        lo = lo + 1;
    }
    let mut hi: usize = n;
    while hi > lo && is_whitespace(s[hi - 1])
        invariant
            n == s.len(),
            lo <= hi <= n,
            trim_front(s@) == s@.subrange(lo as int, n as int),
            trim(s@) == trim_back(s@.subrange(lo as int, hi as int)),
        decreases hi - lo,
    {
        assert(s@.subrange(lo as int, hi as int).drop_last() =~= s@.subrange(
            lo as int,
            hi - 1,
        ));
        hi = hi - 1;
    }
    copy_range(s, lo, hi)
}

/// The pieces of `parts`, one after the other.
pub fn concat_chars(parts: &Vec<Vec<char>>) -> (r: Vec<char>)
    ensures
        r@ == concat(views(parts@)),
{
    let mut r: Vec<char> = Vec::new();
    let mut k: usize = 0;
    assert(views(parts@).take(0) =~= Seq::<Seq<char>>::empty());
    while k < parts.len()
        invariant
            k <= parts.len(),
            r@ == concat(views(parts@).take(k as int)),
        decreases parts.len() - k,
    {
        let piece = &parts[k];
        let ghost before = r@;
        let mut j: usize = 0;
        while j < piece.len()
            invariant
                j <= piece.len(),
                r@ == before + piece@.take(j as int),
            decreases piece.len() - j,
        {
            r.push(piece[j]);
            j = j + 1;
            assert(r@ =~= before + piece@.take(j as int));
        }
        assert(piece@.take(j as int) =~= piece@);
        assert(views(parts@).take(k + 1).drop_last() =~= views(parts@).take(k as int));
        k = k + 1;
    }
    assert(views(parts@).take(k as int) =~= views(parts@));
    r
}

/// `s` with every occurrence of the marker `p` taken out.
pub fn remove_all_chars(s: &Vec<char>, p: &Vec<char>) -> (r: Vec<char>)
    requires
        p.len() > 0,
    ensures
        r@ == remove_all(s@, p@),
{
    let parts = split_chars(s, p);
    concat_chars(&parts)
}

} // verus!
