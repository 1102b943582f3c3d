//! Character-level helpers on strings, each with a specification over `Seq<char>`.

use vstd::prelude::*;

verus! {

/// Appends one character to a string (`String::push`).
#[verifier::external_body]
pub(crate) fn push_char(s: &mut String, c: char)
    ensures
        final(s)@ == old(s)@.push(c),
{
    s.push(c);
}

/// The characters of `s`, in order.
pub fn to_chars(s: &str) -> (v: Vec<char>)
    ensures
        v@ == s@,
{
    let n = s.unicode_len();
    let mut v: Vec<char> = Vec::new();
    let mut i: usize = 0;
    while i < n
        invariant
            n == s@.len(),
            i <= n,
            v@ == s@.take(i as int),
        decreases n - i,
    {
        v.push(s.get_char(i));
        i += 1;
        assert(v@ =~= s@.take(i as int));
    }
    assert(s@.take(n as int) =~= s@);
    v
}

/// A string made of the characters `v[lo..hi]`, in order.
pub fn from_char_range(v: &[char], lo: usize, hi: usize) -> (s: String)
    requires
        lo <= hi <= v@.len(),
    ensures
        s@ == v@.subrange(lo as int, hi as int),
{
    let mut s = String::new();
    let mut i: usize = lo;
    while i < hi
        invariant
            lo <= i <= hi <= v@.len(),
            s@ == v@.subrange(lo as int, i as int),
        decreases hi - i,
    {
        push_char(&mut s, v[i]);
        i += 1;
        assert(s@ =~= v@.subrange(lo as int, i as int));
    }
    s
}

/// The string `a` followed by the string `b`.
pub fn concat(a: &str, b: &str) -> (s: String)
    ensures
        s@ == a@ + b@,
{
    let mut s = a.to_owned();
    s.append(b);
    s
}

/// Whether two strings hold the same characters.
pub fn same_text(a: &str, b: &str) -> (r: bool)
    ensures
        r == (a@ == b@),
{
    let n = a.unicode_len();
    let m = b.unicode_len();
    if n != m {
        return false;
    }
    let mut i: usize = 0;
    while i < n
        invariant
            n == a@.len(),
            m == b@.len(),
            n == m,
            i <= n,
            forall|k: int| 0 <= k < i ==> a@[k] == b@[k],
        decreases n - i,
    {
        if a.get_char(i) != b.get_char(i) {
            return false;
        }
        i += 1;
    }
    assert(a@ =~= b@);
    true
}

/// White space as `char::is_whitespace` defines it: the characters with the
/// Unicode `White_Space` property.
pub open spec fn is_white_space(c: char) -> bool {
    let u = c as u32;
    ||| 0x09 <= u <= 0x0D
    ||| u == 0x20
    ||| u == 0x85
    ||| u == 0xA0
    ||| u == 0x1680
    ||| 0x2000 <= u <= 0x200A
    ||| u == 0x2028
    ||| u == 0x2029
    ||| u == 0x202F
    ||| u == 0x205F
    ||| u == 0x3000
}

/// Whether `c` is white space.
pub fn white_space(c: char) -> (r: bool)
    ensures
        r == is_white_space(c),
{
    let u = c as u32;
    (0x09 <= u && u <= 0x0D) || u == 0x20 || u == 0x85 || u == 0xA0 || u == 0x1680 || (0x2000
        <= u && u <= 0x200A) || u == 0x2028 || u == 0x2029 || u == 0x202F || u == 0x205F || u
        == 0x3000
}

/// The pieces of `s` between the characters for which `sep` holds, empty pieces
/// included; there is always at least one piece.
pub open spec fn split_on(s: Seq<char>, sep: spec_fn(char) -> bool) -> Seq<Seq<char>>
    decreases s.len(),
{
    if s.len() == 0 {
        seq![Seq::empty()]
    } else {
        let init = split_on(s.drop_last(), sep);
        if sep(s.last()) {
            init.push(Seq::empty())
        } else {
            init.update(init.len() - 1, init.last().push(s.last()))
        }
    }
}

/// `split_on` never yields an empty list of pieces.
pub proof fn lemma_split_on_nonempty(s: Seq<char>, sep: spec_fn(char) -> bool)
    ensures
        split_on(s, sep).len() >= 1,
    decreases s.len(),
{
    if s.len() > 0 {
        lemma_split_on_nonempty(s.drop_last(), sep);
    }
}

/// The predicate "is the character `c`".
pub open spec fn char_is(c: char) -> spec_fn(char) -> bool {
    |x: char| x == c
}

/// The pieces of `s` between occurrences of `sep` (`str::split` with a character).
pub open spec fn split_char_spec(s: Seq<char>, sep: char) -> Seq<Seq<char>> {
    split_on(s, char_is(sep))
}

/// The predicate "is white space".
pub open spec fn white() -> spec_fn(char) -> bool {
    |x: char| is_white_space(x)
}

/// The predicate "is not empty".
pub open spec fn nonempty() -> spec_fn(Seq<char>) -> bool {
    |w: Seq<char>| w.len() > 0
}

/// The words of `s` (`str::split_whitespace`): the non-empty pieces between white space.
pub open spec fn words(s: Seq<char>) -> Seq<Seq<char>> {
    split_on(s, white()).filter(nonempty())
}

/// The pieces of `s` between occurrences of `sep`, empty pieces included.
pub fn split_char(s: &str, sep: char) -> (r: Vec<String>)
    ensures
        r.deep_view() == split_char_spec(s@, sep),
{
    let v = to_chars(s);
    let mut pieces: Vec<String> = Vec::new();
    let mut start: usize = 0;
    let mut i: usize = 0;
    assert(v@.take(0) =~= Seq::<char>::empty());
    assert(pieces.deep_view().push(v@.subrange(0, 0)) =~= split_on(v@.take(0), char_is(sep)));
    while i < v.len()
        invariant
            v@ == s@,
            start <= i <= v@.len(),
            split_on(v@.take(i as int), char_is(sep)) == pieces.deep_view().push(
                v@.subrange(start as int, i as int),
            ),
        decreases v.len() - i,
    {
        let ghost pre = v@.take(i as int);
        let ghost old_pieces = pieces.deep_view();
        assert(v@.take(i + 1).drop_last() =~= pre);
        assert(v@.take(i + 1).last() == v@[i as int]);
        if v[i] == sep {
            let piece = from_char_range(&v, start, i);
            pieces.push(piece);
            assert(pieces.deep_view() =~= old_pieces.push(v@.subrange(start as int, i as int)));
            start = i + 1;
            assert(char_is(sep)(v@.take(i + 1).last()));
            assert(v@.subrange(start as int, (i + 1) as int) =~= Seq::<char>::empty());
            assert(split_on(v@.take(i + 1), char_is(sep)) == split_on(pre, char_is(sep)).push(
                Seq::empty(),
            ));
            assert(split_on(v@.take(i + 1), char_is(sep)) =~= pieces.deep_view().push(
                v@.subrange(start as int, (i + 1) as int),
            ));
        } else {
            assert(!char_is(sep)(v@.take(i + 1).last()));
            let ghost init = split_on(pre, char_is(sep));
            assert(split_on(v@.take(i + 1), char_is(sep)) == init.update(
                init.len() - 1,
                init.last().push(v@[i as int]),
            ));
            assert(v@.subrange(start as int, i as int).push(v@[i as int]) =~= v@.subrange(
                start as int,
                (i + 1) as int,
            ));
            assert(split_on(v@.take(i + 1), char_is(sep)) =~= pieces.deep_view().push(
                v@.subrange(start as int, (i + 1) as int),
            ));
        }
        i += 1;
    }
    let ghost old_pieces = pieces.deep_view();
    let last = from_char_range(&v, start, v.len());
    pieces.push(last);
    assert(pieces.deep_view() =~= old_pieces.push(v@.subrange(start as int, v@.len() as int)));
    assert(v@.take(v@.len() as int) =~= v@);
    pieces
}

/// The words of `s` (`str::split_whitespace`).
pub fn split_words(s: &str) -> (r: Vec<String>)
    ensures
        r.deep_view() == words(s@),
{
    let v = to_chars(s);
    let mut out: Vec<String> = Vec::new();
    let ghost mut pieces: Seq<Seq<char>> = Seq::empty();
    let mut start: usize = 0;
    let mut i: usize = 0;
    assert(v@.take(0) =~= Seq::<char>::empty());
    assert(pieces.push(v@.subrange(0, 0)) =~= split_on(v@.take(0), white()));
    assert(out.deep_view() =~= pieces.filter(nonempty()));
    while i < v.len()
        invariant
            v@ == s@,
            start <= i <= v@.len(),
            split_on(v@.take(i as int), white()) == pieces.push(
                v@.subrange(start as int, i as int),
            ),
            out.deep_view() == pieces.filter(nonempty()),
        decreases v.len() - i,
    {
        let ghost pre = v@.take(i as int);
        let ghost old_out = out.deep_view();
        assert(v@.take(i + 1).drop_last() =~= pre);
        assert(v@.take(i + 1).last() == v@[i as int]);
        if white_space(v[i]) {
            let ghost piece = v@.subrange(start as int, i as int);
            if start < i {
                let w = from_char_range(&v, start, i);
                out.push(w);
                assert(out.deep_view() =~= old_out.push(piece));
            }
            proof {
                let old_pieces = pieces;
                pieces = pieces.push(piece);
                old_pieces.lemma_filter_push(piece, nonempty());
                assert(pieces.filter(nonempty()) == if nonempty()(piece) {
                    old_pieces.filter(nonempty()).push(piece)
                } else {
                    old_pieces.filter(nonempty())
                });
            }
            start = i + 1;
            assert(white()(v@.take(i + 1).last()));
            assert(v@.subrange(start as int, (i + 1) as int) =~= Seq::<char>::empty());
            assert(split_on(v@.take(i + 1), white()) == split_on(pre, white()).push(
                Seq::empty(),
            ));
            assert(split_on(v@.take(i + 1), white()) =~= pieces.push(
                v@.subrange(start as int, (i + 1) as int),
            ));
        } else {
            assert(!white()(v@.take(i + 1).last()));
            let ghost init = split_on(pre, white());
            assert(split_on(v@.take(i + 1), white()) == init.update(
                init.len() - 1,
                init.last().push(v@[i as int]),
            ));
            assert(v@.subrange(start as int, i as int).push(v@[i as int]) =~= v@.subrange(
                start as int,
                (i + 1) as int,
            ));
            assert(split_on(v@.take(i + 1), white()) =~= pieces.push(
                v@.subrange(start as int, (i + 1) as int),
            ));
        }
        i += 1;
    }
    let ghost piece = v@.subrange(start as int, v@.len() as int);
    let ghost old_out = out.deep_view();
    if start < v.len() {
        let w = from_char_range(&v, start, v.len());
        out.push(w);
        assert(out.deep_view() =~= old_out.push(piece));
    }
    assert(v@.take(v@.len() as int) =~= v@);
    proof {
        pieces.lemma_filter_push(piece, nonempty());
    }
    assert(pieces.push(piece).filter(nonempty()) == out.deep_view());
    out
}

/// The pieces `ps` written one after another with `sep` between neighbours.
pub open spec fn join(ps: Seq<Seq<char>>, sep: Seq<char>) -> Seq<char>
    decreases ps.len(),
{
    if ps.len() == 0 {
        Seq::empty()
    } else if ps.len() == 1 {
        ps[0]
    } else {
        join(ps.drop_last(), sep) + sep + ps.last()
    }
}

/// The texts of a sequence of string slices.
pub open spec fn texts(ps: Seq<&str>) -> Seq<Seq<char>> {
    ps.map_values(|p: &str| p@)
}

/// The pieces `parts[lo..hi]` joined with `sep` between neighbours (`join` on a slice).
pub fn join_range(parts: &[&str], lo: usize, hi: usize, sep: &str) -> (r: String)
    requires
        lo <= hi <= parts@.len(),
    ensures
        r@ == join(texts(parts@).subrange(lo as int, hi as int), sep@),
{
    let mut r = String::new();
    let mut k: usize = lo;
    assert(texts(parts@).subrange(lo as int, lo as int) =~= Seq::<Seq<char>>::empty());
    while k < hi
        invariant
            lo <= k <= hi <= parts@.len(),
            r@ == join(texts(parts@).subrange(lo as int, k as int), sep@),
        decreases hi - k,
    {
        let ghost prev = texts(parts@).subrange(lo as int, k as int);
        let ghost next = texts(parts@).subrange(lo as int, (k + 1) as int);
        assert(next.drop_last() =~= prev);
        assert(next.last() == parts@[k as int]@);
        if k > lo {
            r.append(sep);
        } else {
            assert(next.len() == 1);
            assert(r@ =~= Seq::<char>::empty());
        }
        r.append(parts[k]);
        if k == lo {
            assert(r@ =~= next[0]);
        }
        k += 1;
    }
    r
}

/// `s` with every trailing `c` removed (`str::trim_end_matches` with a character).
pub open spec fn trim_end(s: Seq<char>, c: char) -> Seq<char>
    decreases s.len(),
{
    if s.len() > 0 && s.last() == c {
        trim_end(s.drop_last(), c)
    } else {
        s
    }
}

/// `s` with every trailing `c` removed.
pub fn trim_end_char(s: &str, c: char) -> (r: String)
    ensures
        r@ == trim_end(s@, c),
{
    let v = to_chars(s);
    let mut j: usize = v.len();
    assert(v@.take(j as int) =~= v@);
    while j > 0 && v[j - 1] == c
        invariant
            v@ == s@,
            j <= v@.len(),
            trim_end(v@, c) == trim_end(v@.take(j as int), c),
        decreases j,
    {
        assert(v@.take(j as int).drop_last() =~= v@.take(j - 1));
        j -= 1;
    }
    from_char_range(&v, 0, j)
}

/// Whether `p` occurs in `s` starting at position `i`.
pub open spec fn occurs_at(s: Seq<char>, p: Seq<char>, i: int) -> bool {
    0 <= i && i + p.len() <= s.len() && s.subrange(i, i + p.len()) == p
}

/// Whether `s` begins with `p` (`str::starts_with` with a string).
pub fn starts_with_text(s: &str, p: &str) -> (r: bool)
    ensures
        r == occurs_at(s@, p@, 0),
{
    let sv = to_chars(s);
    let pv = to_chars(p);
    if pv.len() > sv.len() {
        false
    } else {
        occurs_at_exec(&sv, &pv, 0)
    }
}

/// Whether `p` occurs somewhere in `s` (`str::contains` with a string).
pub open spec fn has_substring(s: Seq<char>, p: Seq<char>) -> bool {
    exists|i: int| occurs_at(s, p, i)
}

/// Whether `p` occurs in `s` starting at position `i`.
fn occurs_at_exec(s: &Vec<char>, p: &Vec<char>, i: usize) -> (r: bool)
    requires
        i + p@.len() <= s@.len(),
    ensures
        r == occurs_at(s@, p@, i as int),
{
    let _n = s.len();
    let mut k: usize = 0;
    while k < p.len()
        invariant
            i + p@.len() <= s@.len(),
            s@.len() <= usize::MAX,
            k <= p@.len(),
            forall|t: int| 0 <= t < k ==> s@[i + t] == p@[t],
        decreases p.len() - k,
    {
        if s[i + k] != p[k] {
            assert(s@.subrange(i as int, i + p@.len())[k as int] != p@[k as int]);
            return false;
        }
        k += 1;
    }
    assert(s@.subrange(i as int, i + p@.len()) =~= p@);
    true
}

/// Whether `p` occurs somewhere in `s`.
pub fn contains_text(s: &str, p: &str) -> (r: bool)
    ensures
        r == has_substring(s@, p@),
{
    let sv = to_chars(s);
    let pv = to_chars(p);
    if pv.len() == 0 {
        assert(s@.subrange(0, 0) =~= p@);
        assert(occurs_at(s@, p@, 0));
        return true;
    }
    if pv.len() > sv.len() {
        return false;
    }
    let last = sv.len() - pv.len();
    assert(sv@.len() == sv.len());
    let mut i: usize = 0;
    while i <= last
        invariant
            sv@ == s@,
            pv@ == p@,
            pv@.len() >= 1,
            last + pv@.len() == sv@.len(),
            sv@.len() <= usize::MAX,
            i <= last + 1,
            forall|t: int| 0 <= t < i ==> !occurs_at(s@, p@, t),
        decreases last + 1 - i,
    {
        if occurs_at_exec(&sv, &pv, i) {
            return true;
        }
        i += 1;
    }
    assert forall|t: int| !occurs_at(s@, p@, t) by {
        if 0 <= t && t + p@.len() <= s@.len() {
            assert(t <= last);
        }
    }
    false
}

/// The position of the first `c` in `s`, or the length of `s` when it holds no `c`.
pub open spec fn first_index(s: Seq<char>, c: char) -> int
    decreases s.len(),
{
    if s.len() == 0 {
        0
    } else if s[0] == c {
        0
    } else {
        1 + first_index(s.drop_first(), c)
    }
}

/// `first_index` is the one position `k` with no `c` before it and a `c` at it
/// (or the end of `s`).
pub proof fn lemma_first_index(s: Seq<char>, c: char, k: int)
    requires
        0 <= k <= s.len(),
        k < s.len() ==> s[k] == c,
        forall|j: int| 0 <= j < k ==> s[j] != c,
    ensures
        first_index(s, c) == k,
    decreases s.len(),
{
    if s.len() > 0 && s[0] != c {
        assert(k > 0);
        lemma_first_index(s.drop_first(), c, k - 1);
    }
}

/// The position of the first `c` in `s`, or its length when it holds no `c`.
pub fn find_char(s: &Vec<char>, c: char) -> (k: usize)
    ensures
        k == first_index(s@, c),
        k <= s@.len(),
        k < s@.len() ==> s@[k as int] == c,
        forall|j: int| 0 <= j < k ==> s@[j] != c,
{
    let mut k: usize = 0;
    while k < s.len() && s[k] != c
        invariant
            k <= s@.len(),
            forall|j: int| 0 <= j < k ==> s@[j] != c,
        decreases s.len() - k,
    {
        k += 1;
    }
    proof {
        lemma_first_index(s@, c, k as int);
    }
    k
}

/// The part of `s` before the first `c`, or all of `s` when it holds no `c`
/// (the first item of `str::split` with a character).
pub open spec fn before_first(s: Seq<char>, c: char) -> Seq<char> {
    s.take(first_index(s, c))
}

/// The part of `s` before the first `c`, or all of `s`.
pub fn text_before(s: &str, c: char) -> (r: String)
    ensures
        r@ == before_first(s@, c),
{
    let v = to_chars(s);
    let k = find_char(&v, c);
    let r = from_char_range(&v, 0, k);
    assert(v@.subrange(0, k as int) =~= v@.take(k as int));
    r
}

/// `s` with every element after its first occurrence left out.
pub open spec fn dedup<A>(s: Seq<A>) -> Seq<A>
    decreases s.len(),
{
    if s.len() == 0 {
        s
    } else {
        let d = dedup(s.drop_last());
        if d.contains(s.last()) {
            d
        } else {
            d.push(s.last())
        }
    }
}

/// `dedup` keeps every element once and adds none.
pub proof fn lemma_dedup<A>(s: Seq<A>)
    ensures
        dedup(s).no_duplicates(),
        forall|x: A| dedup(s).contains(x) <==> s.contains(x),
    decreases s.len(),
{
    if s.len() > 0 {
        let d = dedup(s.drop_last());
        lemma_dedup(s.drop_last());
        let last = s.last();
        assert(s =~= s.drop_last().push(last));
        assert forall|x: A| s.contains(x) <==> (s.drop_last().contains(x) || x == last) by {
            if s.contains(x) {
                let i = choose|i: int| 0 <= i < s.len() && s[i] == x;
                if i < s.len() - 1 {
                    assert(s.drop_last()[i] == x);
                }
            }
            if s.drop_last().contains(x) {
                let i = choose|i: int| 0 <= i < s.drop_last().len() && s.drop_last()[i] == x;
                assert(s[i] == x);
            }
            if x == last {
                assert(s[s.len() - 1] == x);
            }
        }
        if !d.contains(last) {
            assert forall|x: A| d.push(last).contains(x) <==> (d.contains(x) || x == last) by {
                if d.push(last).contains(x) {
                    let i = choose|i: int| 0 <= i < d.push(last).len() && d.push(last)[i] == x;
                    if i < d.len() {
                        assert(d[i] == x);
                    }
                }
                if d.contains(x) {
                    let i = choose|i: int| 0 <= i < d.len() && d[i] == x;
                    assert(d.push(last)[i] == x);
                }
                if x == last {
                    assert(d.push(last)[d.len() as int] == x);
                }
            }
        }
    }
}

/// Whether every character of `s` is ASCII.
pub open spec fn is_ascii_text(s: Seq<char>) -> bool {
    forall|i: int| 0 <= i < s.len() ==> (#[trigger] s[i] as u32) < 128
}

/// The lowercase form of an ASCII character: `A`-`Z` become `a`-`z`, any
/// other character stays.
pub open spec fn ascii_lower(c: char) -> char {
    if 'A' <= c <= 'Z' {
        ((c as u32) + 32) as char
    } else {
        c
    }
}

/// The uppercase form of an ASCII character: `a`-`z` become `A`-`Z`, any
/// other character stays.
pub open spec fn ascii_upper(c: char) -> char {
    if 'a' <= c <= 'z' {
        ((c as u32) - 32) as char
    } else {
        c
    }
}

/// What Unicode's lowercase mapping makes of a text that is not all ASCII.
pub uninterp spec fn unicode_lowercase(s: Seq<char>) -> Seq<char>;

/// What Unicode's uppercase mapping makes of a text that is not all ASCII.
pub uninterp spec fn unicode_uppercase(s: Seq<char>) -> Seq<char>;

/// What `str::to_lowercase` returns: for ASCII text, each letter in lower
/// case (the Unicode mapping of the ASCII letters), else the Unicode mapping.
pub open spec fn lowercase(s: Seq<char>) -> Seq<char> {
    if is_ascii_text(s) {
        s.map_values(|c: char| ascii_lower(c))
    } else {
        unicode_lowercase(s)
    }
}

/// What `str::to_uppercase` returns: for ASCII text, each letter in upper
/// case (the Unicode mapping of the ASCII letters), else the Unicode mapping.
pub open spec fn uppercase(s: Seq<char>) -> Seq<char> {
    if is_ascii_text(s) {
        s.map_values(|c: char| ascii_upper(c))
    } else {
        unicode_uppercase(s)
    }
}

/// On ASCII text, `lowercase` and `uppercase` give ASCII text, and applying
/// either again changes nothing.
pub proof fn lemma_ascii_case(s: Seq<char>)
    requires
        is_ascii_text(s),
    ensures
        is_ascii_text(lowercase(s)),
        is_ascii_text(uppercase(s)),
        lowercase(lowercase(s)) == lowercase(s),
        uppercase(uppercase(s)) == uppercase(s),
{
    let l = lowercase(s);
    let u = uppercase(s);
    assert forall|i: int| 0 <= i < l.len() implies (#[trigger] l[i] as u32) < 128 by {
        assert((s[i] as u32) < 128);
    }
    assert forall|i: int| 0 <= i < u.len() implies (#[trigger] u[i] as u32) < 128 by {
        assert((s[i] as u32) < 128);
    }
    assert(lowercase(l) =~= l);
    assert(uppercase(u) =~= u);
}

/// `str::to_lowercase`; its result is described by `lowercase`.
#[verifier::external_body]
pub(crate) fn to_lowercase(s: &str) -> (r: String)
    ensures
        r@ == lowercase(s@),
        !is_ascii_text(s@) ==> r@ == unicode_lowercase(s@),
{
    s.to_lowercase()
}

/// `str::to_uppercase`; its result is described by `uppercase`.
#[verifier::external_body]
pub(crate) fn to_uppercase(s: &str) -> (r: String)
    ensures
        r@ == uppercase(s@),
        !is_ascii_text(s@) ==> r@ == unicode_uppercase(s@),
{
    s.to_uppercase()
}

/// Whether `c` is an ASCII decimal digit.
pub open spec fn is_digit(c: char) -> bool {
    '0' <= c <= '9'
}

/// The number that a string of decimal digits writes.
pub open spec fn digits_value(s: Seq<char>) -> int
    decreases s.len(),
{
    if s.len() == 0 {
        0
    } else {
        10 * digits_value(s.drop_last()) + (s.last() as int - '0' as int)
    }
}

/// Whether `s` is one or more decimal digits.
pub open spec fn all_digits(s: Seq<char>) -> bool {
    s.len() > 0 && forall|i: int| 0 <= i < s.len() ==> is_digit(#[trigger] s[i])
}

/// What `str::parse` gives for an unsigned integer type whose largest value is
/// `max`: an optional `+` followed by decimal digits whose value is at most `max`.
pub open spec fn parse_unsigned(s: Seq<char>, max: int) -> Option<int> {
    let body = if s.len() > 0 && s[0] == '+' {
        s.drop_first()
    } else {
        s
    };
    if all_digits(body) && digits_value(body) <= max {
        Some(digits_value(body))
    } else {
        None
    }
}

/// What `str::parse` gives for a signed integer type with range `min..=max`: a
/// `-` followed by digits for a negative value, or what `parse_unsigned` accepts.
pub open spec fn parse_signed(s: Seq<char>, min: int, max: int) -> Option<int> {
    if s.len() > 0 && s[0] == '-' {
        let body = s.drop_first();
        if all_digits(body) && -digits_value(body) >= min {
            Some(-digits_value(body))
        } else {
            None
        }
    } else {
        parse_unsigned(s, max)
    }
}

/// The value of digits only grows as more digits follow.
proof fn lemma_digits_value_grows(s: Seq<char>, k: int)
    requires
        0 <= k <= s.len(),
        forall|i: int| 0 <= i < s.len() ==> is_digit(#[trigger] s[i]),
    ensures
        0 <= digits_value(s.take(k)) <= digits_value(s),
    decreases s.len(),
{
    if s.len() > 0 {
        if k == s.len() {
            assert(s.take(k) =~= s);
            lemma_digits_value_grows(s.drop_last(), k - 1);
            assert(s.drop_last().take(k - 1) =~= s.drop_last());
        } else {
            lemma_digits_value_grows(s.drop_last(), k);
            assert(s.drop_last().take(k) =~= s.take(k));
            lemma_digits_value_grows(s.drop_last(), s.len() - 1);
            assert(s.drop_last().take(s.len() - 1) =~= s.drop_last());
        }
    } else {
        assert(s.take(k) =~= s);
    }
}

/// The value of the digits `v[start..]`, when they are all digits and the value is at most `max`.
fn digits_at_most(v: &Vec<char>, start: usize, max: u64) -> (r: Option<u64>)
    requires
        start <= v@.len(),
        max <= 0xffff_ffff,
    ensures
        ({
            let body = v@.subrange(start as int, v@.len() as int);
            match r {
                Some(n) => all_digits(body) && digits_value(body) <= max && n == digits_value(body),
                None => !(all_digits(body) && digits_value(body) <= max),
            }
        }),
{
    let ghost body = v@.subrange(start as int, v@.len() as int);
    if start == v.len() {
        return None;
    }
    let mut acc: u64 = 0;
    let mut i: usize = start;
    assert(body.take(0) =~= Seq::<char>::empty());
    while i < v.len()
        invariant
            start <= i <= v@.len(),
            start < v@.len(),
            max <= 0xffff_ffff,
            body == v@.subrange(start as int, v@.len() as int),
            forall|t: int| 0 <= t < i - start ==> is_digit(#[trigger] body[t]),
            acc == digits_value(body.take(i - start)),
            acc <= max,
        decreases v.len() - i,
    {
        let c = v[i];
        assert(body[i - start] == c);
        if !('0' <= c && c <= '9') {
            return None;
        }
        let d = (c as u32 - '0' as u32) as u64;
        assert(body.take(i - start + 1).drop_last() =~= body.take(i - start));
        if acc * 10 + d > max {
            proof {
                let whole = body;
                if all_digits(whole) {
                    lemma_digits_value_grows(whole, i - start + 1);
                }
            }
            return None;
        }
        acc = acc * 10 + d;
        i += 1;
    }
    assert(body.take(i - start) =~= body);
    Some(acc)
}

/// `s` parsed as an unsigned decimal number at most `max` (`str::parse` for `u16` or `u32`).
fn parse_unsigned_at_most(s: &str, max: u64) -> (r: Option<u64>)
    requires
        max <= 0xffff_ffff,
    ensures
        match r {
            Some(n) => parse_unsigned(s@, max as int) == Some(n as int),
            None => parse_unsigned(s@, max as int) is None,
        },
{
    let v = to_chars(s);
    let start: usize = if v.len() > 0 && v[0] == '+' {
        1
    } else {
        0
    };
    assert(v@.subrange(start as int, v@.len() as int) =~= (if s@.len() > 0 && s@[0] == '+' {
        s@.drop_first()
    } else {
        s@
    }));
    digits_at_most(&v, start, max)
}

/// What `str::parse` gives for a `u8`.
pub fn parse_u8(s: &str) -> (r: Option<u8>)
    ensures
        match r {
            Some(n) => parse_unsigned(s@, 0xff) == Some(n as int),
            None => parse_unsigned(s@, 0xff) is None,
        },
{
    match parse_unsigned_at_most(s, 0xff) {
        Some(n) => Some(n as u8),
        None => None,
    }
}

/// `s` parsed as a `u16` (`str::parse::<u16>`).
pub fn parse_u16(s: &str) -> (r: Option<u16>)
    ensures
        match r {
            Some(n) => parse_unsigned(s@, 0xffff) == Some(n as int),
            None => parse_unsigned(s@, 0xffff) is None,
        },
{
    match parse_unsigned_at_most(s, 0xffff) {
        Some(n) => Some(n as u16),
        None => None,
    }
}

/// `s` parsed as a `u32` (`str::parse::<u32>`).
pub fn parse_u32(s: &str) -> (r: Option<u32>)
    ensures
        match r {
            Some(n) => parse_unsigned(s@, 0xffff_ffff) == Some(n as int),
            None => parse_unsigned(s@, 0xffff_ffff) is None,
        },
{
    match parse_unsigned_at_most(s, 0xffff_ffff) {
        Some(n) => Some(n as u32),
        None => None,
    }
}

/// `s` parsed as an `i32` (`str::parse::<i32>`).
pub fn parse_i32(s: &str) -> (r: Option<i32>)
    ensures
        match r {
            Some(n) => parse_signed(s@, -0x8000_0000, 0x7fff_ffff) == Some(n as int),
            None => parse_signed(s@, -0x8000_0000, 0x7fff_ffff) is None,
        },
{
    let v = to_chars(s);
    if v.len() > 0 && v[0] == '-' {
        assert(v@.subrange(1, v@.len() as int) =~= s@.drop_first());
        match digits_at_most(&v, 1, 0x8000_0000) {
            Some(n) => {
                if n == 0x8000_0000 {
                    Some(-0x8000_0000i32)
                } else {
                    Some(-(n as i32))
                }
            },
            None => None,
        }
    } else {
        match parse_unsigned_at_most(s, 0x7fff_ffff) {
            Some(n) => Some(n as i32),
            None => None,
        }
    }
}

} // verus!
