//! Text as sequences of characters: trimming, lines, searching, splitting and joining.
//!
//! Every function here takes and returns ordinary strings; its contract speaks of their
//! character sequences.

use vstd::prelude::*;
use vstd::utf8::encode_utf8;
use vstd::string::StringExecFns;

verus! {

/// `String::push`: appends one character at the end.
pub assume_specification[ String::push ](s: &mut String, c: char)
    ensures
        final(s)@ == old(s)@.push(c),
;

/// The character sequences of a list of strings.
pub open spec fn texts(list: Seq<String>) -> Seq<Seq<char>> {
    list.map_values(|s: String| s@)
}

/// The characters of `s`, in order.
pub fn chars_of(s: &str) -> (r: Vec<char>)
    ensures
        r@ == s@,
{
    let mut out: Vec<char> = Vec::new();
    for c in it: s.chars()
        invariant
            out@ == s@.take(it.index() as int),
            it.seq() == s@,
    {
        out.push(c);
        assert(s@.take(it.index() + 1) == s@.take(it.index() as int).push(c));
    }
    assert(s@.take(s@.len() as int) == s@);
    out
}

/// The string made of `chars[from..to]`.
pub fn string_of(chars: &[char], from: usize, to: usize) -> (r: String)
    requires
        from <= to <= chars@.len(),
    ensures
        r@ == chars@.subrange(from as int, to as int),
{
    let mut out = String::new();
    let mut i: usize = from;
    while i < to
        invariant
            from <= i <= to <= chars@.len(),
            out@ == chars@.subrange(from as int, i as int),
        decreases to - i,
    {
        out.push(chars[i]);
        i += 1;
        assert(chars@.subrange(from as int, i as int) == chars@.subrange(
            from as int,
            i - 1,
        ).push(chars@[i - 1]));
    }
    out
}

/// Whether the two texts hold the same characters.
pub fn same(a: &str, b: &str) -> (r: bool)
    ensures
        r == (a@ == b@),
{
    let x = chars_of(a);
    let y = chars_of(b);
    if x.len() != y.len() {
        return false;
    }
    let mut i: usize = 0;
    while i < x.len()
        invariant
            x@ == a@,
            y@ == b@,
            x@.len() == y@.len(),
            i <= x@.len(),
            forall|j: int| 0 <= j < i ==> x@[j] == y@[j],
        decreases x@.len() - i,
    {
        if x[i] != y[i] {
            return false;
        }
        i += 1;
    }
    assert(a@ =~= b@);
    true
}

/// The Unicode `White_Space` characters.
pub open spec fn is_space(c: char) -> bool {
    let n = c as int;
    ||| 9 <= n <= 13
    ||| n == 0x20
    ||| n == 0x85
    ||| n == 0xa0
    ||| n == 0x1680
    ||| 0x2000 <= n <= 0x200a
    ||| n == 0x2028
    ||| n == 0x2029
    ||| n == 0x202f
    ||| n == 0x205f
    ||| n == 0x3000
}

/// Whether `c` is white space.
pub fn space(c: char) -> (r: bool)
    ensures
        r == is_space(c),
{
    let n: u32 = c as u32;
    (9 <= n && n <= 13) || n == 0x20 || n == 0x85 || n == 0xa0 || n == 0x1680 || (0x2000 <= n && n
        <= 0x200a) || n == 0x2028 || n == 0x2029 || n == 0x202f || n == 0x205f || n == 0x3000
}

/// `s` without the white space it begins with.
pub open spec fn trimmed_start(s: Seq<char>) -> Seq<char>
    decreases s.len(),
{
    if s.len() > 0 && is_space(s[0]) {
        trimmed_start(s.skip(1))
    } else {
        s
    }
}

/// `s` without the white space it ends with.
pub open spec fn trimmed_end(s: Seq<char>) -> Seq<char>
    decreases s.len(),
{
    if s.len() > 0 && is_space(s.last()) {
        trimmed_end(s.drop_last())
    } else {
        s
    }
}

/// `s` without the white space at either end.
pub open spec fn trimmed(s: Seq<char>) -> Seq<char> {
    trimmed_end(trimmed_start(s))
}

fn trim_start_index(v: &[char]) -> (lo: usize)
    ensures
        lo <= v@.len(),
        trimmed_start(v@) == v@.skip(lo as int),
{
    let mut lo: usize = 0;
    assert(v@.skip(0) == v@);
    while lo < v.len() && space(v[lo])
        invariant
            lo <= v@.len(),
            trimmed_start(v@) == trimmed_start(v@.skip(lo as int)),
        decreases v@.len() - lo,
    {
        assert(v@.skip(lo as int).skip(1) == v@.skip(lo + 1));
        lo += 1;
    }
    lo
}

fn trim_end_index(v: &[char], lo: usize) -> (hi: usize)
    requires
        lo <= v@.len(),
    ensures
        lo <= hi <= v@.len(),
        trimmed_end(v@.skip(lo as int)) == v@.subrange(lo as int, hi as int),
{
    let mut hi: usize = v.len();
    assert(v@.subrange(lo as int, hi as int) == v@.skip(lo as int));
    while lo < hi && space(v[hi - 1])
        invariant
            lo <= hi <= v@.len(),
            trimmed_end(v@.skip(lo as int)) == trimmed_end(v@.subrange(lo as int, hi as int)),
        decreases hi,
    {
        assert(v@.subrange(lo as int, hi as int).drop_last() == v@.subrange(lo as int, hi - 1));
        hi -= 1;
    }
    hi
}

/// `s` without the white space it begins with.
pub fn trim_start(s: &str) -> (r: String)
    ensures
        r@ == trimmed_start(s@),
{
    let v = chars_of(s);
    let lo: usize = trim_start_index(v.as_slice());
    let hi: usize = v.len();
    assert(v@.subrange(lo as int, hi as int) == v@.skip(lo as int));
    string_of(v.as_slice(), lo, hi)
}

/// `s` without the white space it ends with.
pub fn trim_end(s: &str) -> (r: String)
    ensures
        r@ == trimmed_end(s@),
{
    let v = chars_of(s);
    let hi: usize = trim_end_index(v.as_slice(), 0);
    assert(v@.skip(0) == v@);
    string_of(v.as_slice(), 0, hi)
}

/// `s` without the white space at either end.
pub fn trim(s: &str) -> (r: String)
    ensures
        r@ == trimmed(s@),
{
    let v = chars_of(s);
    let lo: usize = trim_start_index(v.as_slice());
    let hi: usize = trim_end_index(v.as_slice(), lo);
    string_of(v.as_slice(), lo, hi)
}

/// Whether nothing but white space is in `s`.
pub fn is_blank(s: &str) -> (r: bool)
    ensures
        r == (trimmed(s@).len() == 0),
{
    trim(s).as_str().is_empty()
}

/// Whether `s` begins with `p`.
pub fn starts_with(s: &str, p: &str) -> (r: bool)
    ensures
        r == p@.is_prefix_of(s@),
{
    let x = chars_of(s);
    let y = chars_of(p);
    at_index(x.as_slice(), y.as_slice(), 0)
}

/// Whether `s` ends with `p`.
pub fn ends_with(s: &str, p: &str) -> (r: bool)
    ensures
        r == p@.is_suffix_of(s@),
{
    let x = chars_of(s);
    let y = chars_of(p);
    if y.len() > x.len() {
        return false;
    }
    let r = at_index(x.as_slice(), y.as_slice(), x.len() - y.len());
    assert(x@.subrange(x@.len() - y@.len(), x@.len() as int) == s@.subrange(
        s@.len() - p@.len(),
        s@.len() as int,
    ));
    r
}

/// What follows `p` in `s`, where `s` begins with `p`.
pub open spec fn after_prefix(s: Seq<char>, p: Seq<char>) -> Option<Seq<char>> {
    if p.is_prefix_of(s) {
        Some(s.skip(p.len() as int))
    } else {
        None
    }
}

/// What stands before `p` in `s`, where `s` ends with `p`.
pub open spec fn before_suffix(s: Seq<char>, p: Seq<char>) -> Option<Seq<char>> {
    if p.is_suffix_of(s) {
        Some(s.take(s.len() - p.len()))
    } else {
        None
    }
}

/// The view of an optional string.
pub open spec fn opt(o: Option<String>) -> Option<Seq<char>> {
    match o {
        Some(s) => Some(s@),
        None => None,
    }
}

/// What follows `p` in `s`, or `None` where `s` does not begin with `p`.
pub fn strip_prefix(s: &str, p: &str) -> (r: Option<String>)
    ensures
        opt(r) == after_prefix(s@, p@),
{
    if !starts_with(s, p) {
        return None;
    }
    let x = chars_of(s);
    let n: usize = chars_of(p).len();
    assert(x@.subrange(n as int, x@.len() as int) == x@.skip(n as int));
    Some(string_of(x.as_slice(), n, x.len()))
}

/// What stands before `p` in `s`, or `None` where `s` does not end with `p`.
pub fn strip_suffix(s: &str, p: &str) -> (r: Option<String>)
    ensures
        opt(r) == before_suffix(s@, p@),
{
    if !ends_with(s, p) {
        return None;
    }
    let x = chars_of(s);
    let n: usize = chars_of(p).len();
    assert(x@.subrange(0, x@.len() - n) == x@.take(x@.len() - n));
    Some(string_of(x.as_slice(), 0, x.len() - n))
}

/// The length of `s` in bytes.
pub open spec fn byte_len(s: Seq<char>) -> nat {
    encode_utf8(s).len()
}

/// The bytes of a text are those of its parts.
pub proof fn lemma_byte_len_of_parts(a: Seq<char>, b: Seq<char>)
    ensures
        byte_len(a + b) == byte_len(a) + byte_len(b),
    decreases a.len(),
{
    if a.len() == 0 {
        assert(a + b =~= b);
    } else {
        lemma_byte_len_of_parts(a.drop_first(), b);
        assert((a + b).drop_first() =~= a.drop_first() + b);
        assert((a + b)[0] == a[0]);
    }
}

/// The length of `s` in bytes.
pub fn bytes(s: &str) -> (r: usize)
    ensures
        r == byte_len(s@),
{
    s.as_bytes().len()
}

/// Whether `pat` stands in `s` at position `i`.
pub open spec fn occurs_at(s: Seq<char>, pat: Seq<char>, i: int) -> bool {
    0 <= i && i + pat.len() <= s.len() && s.subrange(i, i + pat.len()) == pat
}

/// The first position from `from` on at which `pat` stands in `s`.
pub open spec fn first_from(s: Seq<char>, pat: Seq<char>, from: int) -> Option<int>
    decreases s.len() + 1 - from,
{
    if from < 0 || from > s.len() {
        None
    } else if occurs_at(s, pat, from) {
        Some(from)
    } else {
        first_from(s, pat, from + 1)
    }
}

/// Whether `pat` stands anywhere in `s`.
pub open spec fn has(s: Seq<char>, pat: Seq<char>) -> bool {
    exists|i: int| occurs_at(s, pat, i)
}

/// `first_from` finds the least position, and finds one wherever there is one.
pub proof fn lemma_first_from(s: Seq<char>, pat: Seq<char>, from: int)
    requires
        0 <= from,
    ensures
        match first_from(s, pat, from) {
            Some(k) => from <= k && occurs_at(s, pat, k) && forall|j: int|
                from <= j < k ==> !occurs_at(s, pat, j),
            None => forall|j: int| from <= j ==> !occurs_at(s, pat, j),
        },
    decreases s.len() + 1 - from,
{
    if from <= s.len() && !occurs_at(s, pat, from) {
        lemma_first_from(s, pat, from + 1);
    }
}

fn at_index(v: &[char], pat: &[char], i: usize) -> (r: bool)
    requires
        i <= v@.len(),
    ensures
        r == occurs_at(v@, pat@, i as int),
        i == 0 ==> r == pat@.is_prefix_of(v@),
{
    if pat.len() > v.len() - i {
        return false;
    }
    let n: usize = v.len();
    let mut k: usize = 0;
    while k < pat.len()
        invariant
            n == v@.len(),
            i + pat@.len() <= v@.len(),
            k <= pat@.len(),
            forall|j: int| 0 <= j < k ==> v@[i + j] == pat@[j],
        decreases pat@.len() - k,
    {
        if v[i + k] != pat[k] {
            assert(v@.subrange(i as int, i + pat@.len())[k as int] != pat@[k as int]);
            return false;
        }
        k += 1;
    }
    assert(v@.subrange(i as int, i + pat@.len()) =~= pat@);
    true
}

fn find_index(v: &[char], pat: &[char], from: usize) -> (r: Option<usize>)
    requires
        from <= v@.len(),
    ensures
        match r {
            Some(k) => first_from(v@, pat@, from as int) == Some(k as int) && occurs_at(
                v@,
                pat@,
                k as int,
            ),
            None => first_from(v@, pat@, from as int) is None,
        },
{
    let mut i: usize = from;
    while i < v.len()
        invariant
            from <= i <= v@.len(),
            first_from(v@, pat@, from as int) == first_from(v@, pat@, i as int),
        decreases v@.len() - i,
    {
        if at_index(v, pat, i) {
            return Some(i);
        }
        i += 1;
    }
    reveal_with_fuel(first_from, 2);
    if at_index(v, pat, i) {
        Some(i)
    } else {
        None
    }
}

/// The first position in characters at which `pat` stands in `s`.
pub fn find(s: &str, pat: &str) -> (r: Option<usize>)
    ensures
        match r {
            Some(k) => first_from(s@, pat@, 0) == Some(k as int) && occurs_at(s@, pat@, k as int),
            None => first_from(s@, pat@, 0) is None,
        },
{
    let x = chars_of(s);
    let y = chars_of(pat);
    find_index(x.as_slice(), y.as_slice(), 0)
}

/// Whether `pat` stands anywhere in `s`.
pub fn contains(s: &str, pat: &str) -> (r: bool)
    ensures
        r == has(s@, pat@),
{
    proof {
        lemma_first_from(s@, pat@, 0);
    }
    find(s, pat).is_some()
}

/// What stands before the first occurrence of `pat` in `s`, and what stands behind it.
pub open spec fn parted(s: Seq<char>, pat: Seq<char>) -> Option<(Seq<char>, Seq<char>)> {
    match first_from(s, pat, 0) {
        Some(k) => Some((s.take(k), s.skip(k + pat.len()))),
        None => None,
    }
}

/// The view of an optional pair of texts.
pub open spec fn pair(o: Option<(String, String)>) -> Option<(Seq<char>, Seq<char>)> {
    match o {
        Some((a, b)) => Some((a@, b@)),
        None => None,
    }
}

/// What stands before the first occurrence of `pat` in `s`, and what stands behind it.
pub fn split_once(s: &str, pat: &str) -> (r: Option<(String, String)>)
    ensures
        pair(r) == parted(s@, pat@),
{
    let x = chars_of(s);
    let y = chars_of(pat);
    let n: usize = x.len();
    match find_index(x.as_slice(), y.as_slice(), 0) {
        Some(k) => {
            assert(s@.subrange(0, k as int) =~= s@.take(k as int));
            assert(s@.subrange(k + pat@.len(), s@.len() as int) =~= s@.skip(k + pat@.len()));
            Some(
                (
                    string_of(x.as_slice(), 0, k),
                    string_of(x.as_slice(), k + y.len(), n),
                ),
            )
        },
        None => None,
    }
}

/// The number of positions from `from` on at which `pat` stands in `s`. What stands at one
/// position may overlap with what stands at another.
pub open spec fn places(s: Seq<char>, pat: Seq<char>, from: int) -> nat
    decreases s.len() + 1 - from,
{
    if from < 0 || from > s.len() {
        0
    } else if occurs_at(s, pat, from) {
        1 + places(s, pat, from + 1)
    } else {
        places(s, pat, from + 1)
    }
}

/// There is no position, one, or more, as the number says.
pub proof fn lemma_places(s: Seq<char>, pat: Seq<char>, from: int)
    requires
        0 <= from,
    ensures
        places(s, pat, from) == 0 <==> first_from(s, pat, from) is None,
        first_from(s, pat, from) matches Some(k) ==> places(s, pat, from) == 1 + places(
            s,
            pat,
            k + 1,
        ),
    decreases s.len() + 1 - from,
{
    if from <= s.len() && !occurs_at(s, pat, from) {
        lemma_places(s, pat, from + 1);
    }
}

/// The number of positions at which `pat` stands in `s`.
pub fn count_places(s: &str, pat: &str) -> (r: usize)
    requires
        pat@.len() > 0,
    ensures
        r == places(s@, pat@, 0),
{
    let x = chars_of(s);
    let y = chars_of(pat);
    let len: usize = x.len();
    let mut n: usize = 0;
    let mut i: usize = 0;
    while i < len
        invariant
            x@ == s@,
            y@ == pat@,
            len == x@.len(),
            n <= i <= len,
            places(s@, pat@, 0) == n + places(s@, pat@, i as int),
        decreases len - i,
    {
        if at_index(x.as_slice(), y.as_slice(), i) {
            n += 1;
        }
        i += 1;
    }
    reveal_with_fuel(places, 2);
    n
}

/// `s` with the first `old` in it replaced by `new`.
pub open spec fn replaced_once(s: Seq<char>, old: Seq<char>, new: Seq<char>) -> Seq<char> {
    match first_from(s, old, 0) {
        Some(k) => s.take(k) + new + s.skip(k + old.len()),
        None => s,
    }
}

/// `s` with the first `old` in it replaced by `new`.
pub fn replace_once(s: &str, old: &str, new: &str) -> (r: String)
    ensures
        r@ == replaced_once(s@, old@, new@),
{
    let x = chars_of(s);
    match find(s, old) {
        Some(k) => {
            let n: usize = chars_of(old).len();
            let total: usize = x.len();
            assert(k + n <= total);
            let mut out = string_of(x.as_slice(), 0, k);
            out.append(new);
            let rest = string_of(x.as_slice(), k + n, x.len());
            out.append(rest.as_str());
            assert(x@.subrange(0, k as int) == x@.take(k as int));
            assert(x@.subrange(k + n, x@.len() as int) == x@.skip(k + n));
            out
        },
        None => s.to_owned(),
    }
}

/// `list` with `sep` between its members.
pub open spec fn joined(list: Seq<Seq<char>>, sep: Seq<char>) -> Seq<char>
    decreases list.len(),
{
    if list.len() == 0 {
        Seq::empty()
    } else if list.len() == 1 {
        list[0]
    } else {
        joined(list.drop_last(), sep) + sep + list.last()
    }
}

/// Every member of a list stands in what the list is joined to.
pub proof fn lemma_joined_has(list: Seq<Seq<char>>, sep: Seq<char>, i: int)
    requires
        0 <= i < list.len(),
    ensures
        has(joined(list, sep), list[i]),
    decreases list.len(),
{
    let all = joined(list, sep);
    if list.len() == 1 {
        assert(all.subrange(0, list[0].len() as int) =~= list[0]);
        assert(occurs_at(all, list[0], 0));
    } else if i == list.len() - 1 {
        let k = all.len() - list[i].len();
        assert(all.subrange(k, all.len() as int) =~= list[i]);
        assert(occurs_at(all, list[i], k));
    } else {
        let less = joined(list.drop_last(), sep);
        lemma_joined_has(list.drop_last(), sep, i);
        assert(list.drop_last()[i] == list[i]);
        let k = choose|k: int| occurs_at(less, list[i], k);
        assert(all.subrange(k, k + list[i].len()) =~= less.subrange(k, k + list[i].len()));
        assert(occurs_at(all, list[i], k));
    }
}

/// What stands in a part of a text stands in the text.
pub proof fn lemma_part_has(before: Seq<char>, part: Seq<char>, behind: Seq<char>, pat: Seq<char>)
    requires
        has(part, pat),
    ensures
        has(before + part + behind, pat),
{
    let all = before + part + behind;
    let k = choose|k: int| occurs_at(part, pat, k);
    let n = before.len() as int;
    assert(all.subrange(n + k, n + k + pat.len()) =~= part.subrange(k, k + pat.len()));
    assert(occurs_at(all, pat, n + k));
}

/// What stands in what stands in a text stands in the text.
pub proof fn lemma_has_through(whole: Seq<char>, part: Seq<char>, pat: Seq<char>)
    requires
        has(whole, part),
        has(part, pat),
    ensures
        has(whole, pat),
{
    let k = choose|k: int| occurs_at(whole, part, k);
    let j = choose|j: int| occurs_at(part, pat, j);
    let x = whole.subrange(k + j, k + j + pat.len());
    assert forall|i: int| 0 <= i < pat.len() implies x[i] == pat[i] by {
        assert(whole.subrange(k, k + part.len())[j + i] == part[j + i]);
        assert(part.subrange(j, j + pat.len())[i] == pat[i]);
    }
    assert(x =~= pat);
    assert(occurs_at(whole, pat, k + j));
}

/// A text stands in itself.
pub proof fn lemma_has_itself(s: Seq<char>)
    ensures
        has(s, s),
{
    assert(s.subrange(0, s.len() as int) =~= s);
    assert(occurs_at(s, s, 0));
}

/// `list` with `sep` between its members.
pub fn join(list: &[String], sep: &str) -> (r: String)
    ensures
        r@ == joined(texts(list@), sep@),
{
    let mut out = String::new();
    let mut i: usize = 0;
    assert(texts(list@).take(0) =~= Seq::<Seq<char>>::empty());
    while i < list.len()
        invariant
            i <= list@.len(),
            out@ == joined(texts(list@).take(i as int), sep@),
        decreases list@.len() - i,
    {
        let ghost before = texts(list@).take(i as int);
        if i > 0 {
            out.append(sep);
        }
        out.append(list[i].as_str());
        i += 1;
        let ghost after = texts(list@).take(i as int);
        assert(after.drop_last() =~= before);
        assert(after.last() == list@[i - 1]@);
        assert(i == 1 ==> out@ =~= after[0]);
    }
    assert(texts(list@).take(i as int) =~= texts(list@));
    out
}

/// The pieces of `s` between occurrences of `sep`: one piece more than there are occurrences.
pub open spec fn pieces(s: Seq<char>, sep: char) -> Seq<Seq<char>>
    decreases s.len(),
{
    match first_from(s, seq![sep], 0) {
        Some(k) => if 0 <= k < s.len() {
            seq![s.take(k)] + pieces(s.skip(k + 1), sep)
        } else {
            seq![s]
        },
        None => seq![s],
    }
}

/// The pieces of `s` between occurrences of `sep`.
pub fn split(s: &str, sep: char) -> (r: Vec<String>)
    ensures
        texts(r@) == pieces(s@, sep),
        r@.len() > 0,
{
    let x = chars_of(s);
    let len: usize = x.len();
    let mark: Vec<char> = vec![sep];
    assert(mark@ =~= seq![sep]);
    let mut out: Vec<String> = Vec::new();
    let mut from: usize = 0;
    assert(x@.skip(0) =~= x@);
    assert(texts(out@) + pieces(s@, sep) =~= pieces(s@, sep));
    loop
        invariant
            x@ == s@,
            len == x@.len(),
            mark@ == seq![sep],
            from <= len,
            pieces(s@, sep) == texts(out@) + pieces(x@.skip(from as int), sep),
        decreases len - from,
    {
        let ghost before = out@;
        let ghost rest = x@.skip(from as int);
        proof {
            lemma_first_from(x@, mark@, from as int);
            lemma_first_in_skip(x@, mark@, from as int);
        }
        match find_index(x.as_slice(), mark.as_slice(), from) {
            Some(k) => {
                let piece = string_of(x.as_slice(), from, k);
                assert(rest.take(k - from) =~= piece@);
                assert(rest.skip(k - from + 1) =~= x@.skip(k + 1));
                out.push(piece);
                assert(texts(out@) =~= texts(before).push(piece@));
                assert(texts(before) + (seq![piece@] + pieces(x@.skip(k + 1), sep)) =~= texts(out@)
                    + pieces(x@.skip(k + 1), sep));
                from = k + 1;
            },
            None => {
                let piece = string_of(x.as_slice(), from, len);
                assert(rest =~= piece@);
                out.push(piece);
                assert(texts(out@) =~= texts(before) + seq![piece@]);
                return out;
            },
        }
    }
}

/// The lines of `s`. A line ends with a newline, or with a carriage return and a newline; the
/// ending is not part of it, and the last line may lack it.
pub open spec fn lines_of(s: Seq<char>) -> Seq<Seq<char>>
    decreases s.len(),
{
    match first_from(s, seq!['\n'], 0) {
        Some(k) => if 0 <= k < s.len() {
            seq![without_return(s.take(k))] + lines_of(s.skip(k + 1))
        } else {
            Seq::empty()
        },
        None => if s.len() == 0 {
            Seq::empty()
        } else {
            seq![s]
        },
    }
}

/// `s` without the one carriage return it may end with.
pub open spec fn without_return(s: Seq<char>) -> Seq<char> {
    if s.len() > 0 && s.last() == '\r' {
        s.drop_last()
    } else {
        s
    }
}

/// The lines of `s`.
pub fn lines(s: &str) -> (r: Vec<String>)
    ensures
        texts(r@) == lines_of(s@),
{
    let x = chars_of(s);
    let len: usize = x.len();
    let newline: Vec<char> = vec!['\n'];
    assert(newline@ =~= seq!['\n']);
    let mut out: Vec<String> = Vec::new();
    let mut from: usize = 0;
    assert(x@.skip(0) =~= x@);
    assert(texts(out@) =~= Seq::<Seq<char>>::empty());
    while from < len
        invariant
            x@ == s@,
            len == x@.len(),
            newline@ == seq!['\n'],
            from <= len,
            lines_of(s@) == texts(out@) + lines_of(x@.skip(from as int)),
        decreases len - from,
    {
        let ghost before = out@;
        let ghost rest = x@.skip(from as int);
        let end: usize;
        let next: usize;
        match find_index(x.as_slice(), newline.as_slice(), from) {
            Some(k) => {
                proof {
                    lemma_first_from(x@, newline@, from as int);
                    lemma_first_in_skip(x@, newline@, from as int);
                }
                if from < k && x[k - 1] == '\r' {
                    end = k - 1;
                } else {
                    end = k;
                }
                next = k + 1;
                assert(rest.take(k - from) =~= x@.subrange(from as int, k as int));
                assert(without_return(rest.take(k - from)) =~= x@.subrange(
                    from as int,
                    end as int,
                ));
                assert(rest.skip(k - from + 1) =~= x@.skip(next as int));
            },
            None => {
                proof {
                    lemma_first_in_skip(x@, newline@, from as int);
                }
                end = len;
                next = len;
                assert(x@.subrange(from as int, end as int) =~= rest);
                assert(x@.skip(next as int) =~= Seq::<char>::empty());
                assert(first_from(Seq::<char>::empty(), newline@, 0) is None) by {
                    lemma_first_from(Seq::<char>::empty(), newline@, 0);
                }
                assert(lines_of(x@.skip(next as int)) =~= Seq::<Seq<char>>::empty());
            },
        }
        let line = string_of(x.as_slice(), from, end);
        assert(lines_of(rest) =~= seq![line@] + lines_of(x@.skip(next as int)));
        out.push(line);
        assert(texts(out@) =~= texts(before).push(line@));
        assert(texts(before) + (seq![line@] + lines_of(x@.skip(next as int))) =~= texts(out@)
            + lines_of(x@.skip(next as int)));
        from = next;
    }
    proof {
        assert(x@.skip(from as int) =~= Seq::<char>::empty());
        lemma_first_from(Seq::<char>::empty(), seq!['\n'], 0);
        assert(lines_of(x@.skip(from as int)) =~= Seq::<Seq<char>>::empty());
        assert(texts(out@) + Seq::<Seq<char>>::empty() =~= texts(out@));
    }
    out
}

/// Searching from `from` on and searching what is left after `from` characters are the same.
pub proof fn lemma_first_in_skip(s: Seq<char>, pat: Seq<char>, from: int)
    requires
        0 <= from <= s.len(),
    ensures
        match first_from(s, pat, from) {
            Some(k) => first_from(s.skip(from), pat, 0) == Some(k - from),
            None => first_from(s.skip(from), pat, 0) is None,
        },
{
    lemma_first_from(s, pat, from);
    lemma_first_from(s.skip(from), pat, 0);
    assert forall|i: int| 0 <= i implies occurs_at(s.skip(from), pat, i) == occurs_at(
        s,
        pat,
        from + i,
    ) by {
        if i + pat.len() <= s.len() - from {
            assert(s.skip(from).subrange(i, i + pat.len()) =~= s.subrange(
                from + i,
                from + i + pat.len(),
            ));
        }
    }
    match first_from(s, pat, from) {
        Some(k) => {
            assert(occurs_at(s.skip(from), pat, k - from));
            match first_from(s.skip(from), pat, 0) {
                Some(j) => {
                    assert(occurs_at(s, pat, from + j));
                },
                None => {},
            }
        },
        None => {
            match first_from(s.skip(from), pat, 0) {
                Some(j) => {
                    assert(occurs_at(s, pat, from + j));
                },
                None => {},
            }
        },
    }
}

/// The first newline of `a + b` is that of `a`, where `a` has one.
proof fn lemma_first_newline(a: Seq<char>, b: Seq<char>, k: int)
    requires
        first_from(a, seq!['\n'], 0) == Some(k),
    ensures
        first_from(a + b, seq!['\n'], 0) == Some(k),
        0 <= k < a.len(),
        a[k] == '\n',
{
    let nl = seq!['\n'];
    lemma_first_from(a, nl, 0);
    lemma_first_from(a + b, nl, 0);
    assert(a.subrange(k, k + 1)[0] == nl[0]);
    assert((a + b).subrange(k, k + 1) =~= nl);
    assert(occurs_at(a + b, nl, k));
    assert forall|j: int| 0 <= j < k implies !occurs_at(a + b, nl, j) by {
        assert(!occurs_at(a, nl, j));
        if occurs_at(a + b, nl, j) {
            assert((a + b).subrange(j, j + 1)[0] == nl[0]);
            assert(a.subrange(j, j + 1) =~= nl);
        }
    }
}

/// Where a newline stands in `s`, one is found.
pub proof fn lemma_newline_found(s: Seq<char>, i: int)
    requires
        0 <= i < s.len(),
        s[i] == '\n',
    ensures
        first_from(s, seq!['\n'], 0) is Some,
{
    lemma_first_from(s, seq!['\n'], 0);
    assert(s.subrange(i, i + 1) =~= seq!['\n']);
    assert(occurs_at(s, seq!['\n'], i));
}

/// The lines of a text that ends with a newline are followed by those of what comes next.
pub proof fn lemma_lines_append(a: Seq<char>, b: Seq<char>)
    requires
        a.len() == 0 || a.last() == '\n',
    ensures
        lines_of(a + b) == lines_of(a) + lines_of(b),
    decreases a.len(),
{
    if a.len() == 0 {
        assert(a + b =~= b);
        lemma_first_from(a, seq!['\n'], 0);
        assert(lines_of(a) =~= Seq::<Seq<char>>::empty());
        assert(lines_of(a) + lines_of(b) =~= lines_of(b));
    } else {
        lemma_newline_found(a, a.len() - 1);
        let k = first_from(a, seq!['\n'], 0)->Some_0;
        lemma_first_newline(a, b, k);
        assert((a + b).take(k) =~= a.take(k));
        assert((a + b).skip(k + 1) =~= a.skip(k + 1) + b);
        lemma_lines_append(a.skip(k + 1), b);
        let first = seq![without_return(a.take(k))];
        assert(first + (lines_of(a.skip(k + 1)) + lines_of(b)) =~= first + lines_of(a.skip(k + 1))
            + lines_of(b));
    }
}

/// A line reads back as itself.
pub proof fn lemma_one_line(line: Seq<char>)
    requires
        !line.contains('\n'),
        line.len() > 0 ==> line.last() != '\r',
    ensures
        lines_of(line.push('\n')) == seq![line],
{
    let s = line.push('\n');
    let nl = seq!['\n'];
    lemma_newline_found(s, line.len() as int);
    lemma_first_from(s, nl, 0);
    let k = first_from(s, nl, 0)->Some_0;
    assert(s.subrange(k, k + 1)[0] == nl[0]);
    assert(s[k] == '\n');
    assert(k == line.len()) by {
        if k < line.len() {
            assert(line[k] == '\n');
        }
    }
    assert(s.take(k) =~= line);
    assert(s.skip(k + 1) =~= Seq::<char>::empty());
    lemma_first_from(Seq::<char>::empty(), nl, 0);
    assert(lines_of(Seq::<char>::empty()) =~= Seq::<Seq<char>>::empty());
    assert(lines_of(s) =~= seq![line]);
}

/// Trimming leaves a text alone that begins and ends with something else than white space.
pub proof fn lemma_trimmed_is_kept(s: Seq<char>)
    requires
        s.len() > 0 ==> !is_space(s[0]) && !is_space(s.last()),
    ensures
        trimmed(s) == s,
{
}

/// A text without the separator is one piece.
pub proof fn lemma_one_piece(a: Seq<char>, sep: char)
    requires
        !a.contains(sep),
    ensures
        pieces(a, sep) == seq![a],
{
    lemma_first_from(a, seq![sep], 0);
    if let Some(k) = first_from(a, seq![sep], 0) {
        assert(a.subrange(k, k + 1)[0] == sep);
        assert(a[k] == sep);
    }
}

/// A piece, the separator and a text are that piece and the pieces of the text.
pub proof fn lemma_first_piece(a: Seq<char>, b: Seq<char>, sep: char)
    requires
        !a.contains(sep),
    ensures
        pieces(a.push(sep) + b, sep) == seq![a] + pieces(b, sep),
{
    let s = a.push(sep) + b;
    let k = a.len() as int;
    lemma_first_from(s, seq![sep], 0);
    assert(s.subrange(k, k + 1) =~= seq![sep]);
    assert(occurs_at(s, seq![sep], k));
    let j = first_from(s, seq![sep], 0)->Some_0;
    if j < k {
        assert(s.subrange(j, j + 1)[0] == sep);
        assert(a[j] == sep);
    }
    assert(j == k);
    assert(s.take(k) =~= a);
    assert(s.skip(k + 1) =~= b);
}

} // verus!
