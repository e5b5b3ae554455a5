use vstd::prelude::*;

verus! {

broadcast use vstd::string::group_string_axioms;

/// Appends one character to a string.
///
/// Wraps `String::push`, which appends the given `char` to the end of the string.
#[verifier::external_body]
pub(crate) fn push_char(s: &mut String, c: char)
    ensures
        final(s)@ == old(s)@.push(c),
{
    s.push(c);
}

/// The characters of `s`, in order.
pub fn chars_of(s: &str) -> (v: Vec<char>)
    ensures
        v@ == s@,
{
    let mut v: Vec<char> = Vec::new();
    for c in it: s.chars()
        invariant
            v@ == it.seq().take(it.index()),
    {
        v.push(c);
    }
    v
}

/// A copy of `chars[from..to]`.
pub fn sub_chars(chars: &Vec<char>, from: usize, to: usize) -> (r: Vec<char>)
    requires
        from <= to <= chars@.len(),
    ensures
        r@ == chars@.subrange(from as int, to as int),
{
    let mut r: Vec<char> = Vec::new();
    let mut i = from;
    while i < to
        invariant
            from <= i <= to <= chars@.len(),
            r@ == chars@.subrange(from as int, i as int),
        decreases to - i,
    {
        r.push(chars[i]);
        assert(r@ =~= chars@.subrange(from as int, i + 1));
        i = i + 1;
    }
    r
}

/// The string made of `chars[from..to]`.
pub fn string_of_range(chars: &Vec<char>, from: usize, to: usize) -> (s: String)
    requires
        from <= to <= chars@.len(),
    ensures
        s@ == chars@.subrange(from as int, to as int),
{
    let mut s = String::new();
    let mut i = from;
    while i < to
        invariant
            from <= i <= to <= chars@.len(),
            s@ == chars@.subrange(from as int, i as int),
        decreases to - i,
    {
        push_char(&mut s, chars[i]);
        assert(chars@.subrange(from as int, i + 1) =~= chars@.subrange(from as int, i as int).push(
            chars@[i as int],
        ));
        i = i + 1;
    }
    s
}

/// Whether two strings hold the same characters.
pub fn same_text(a: &str, b: &str) -> (r: bool)
    ensures
        r == (a@ == b@),
{
    let x = String::from_str(a);
    let y = String::from_str(b);
    x == y
}

/// The first `n` characters of `s` (all of `s` when it is shorter).
pub open spec fn take_chars(s: Seq<char>, n: nat) -> Seq<char> {
    if n < s.len() {
        s.take(n as int)
    } else {
        s
    }
}

/// The first `n` characters of `s`, as `s.chars().take(n).collect()` gives them.
pub fn char_prefix(s: &str, n: usize) -> (r: String)
    ensures
        r@ == take_chars(s@, n as nat),
{
    let chars = chars_of(s);
    let end = if n < chars.len() {
        n
    } else {
        chars.len()
    };
    let r = string_of_range(&chars, 0, end);
    assert(chars@.subrange(0, chars@.len() as int) =~= chars@);
    r
}

/// The characters that have the Unicode `White_Space` property, the ones
/// `char::is_whitespace` accepts.
pub open spec fn is_white_space(c: char) -> bool {
    let u = c as u32;
    ||| 0x09 <= u <= 0x0d
    ||| u == 0x20
    ||| u == 0x85
    ||| u == 0xa0
    ||| u == 0x1680
    ||| 0x2000 <= u <= 0x200a
    ||| u == 0x2028
    ||| u == 0x2029
    ||| u == 0x202f
    ||| u == 0x205f
    ||| u == 0x3000
}

/// Whether `c` is white space.
pub fn white_space(c: char) -> (r: bool)
    ensures
        r == is_white_space(c),
{
    let u = c as u32;
    (0x09 <= u && u <= 0x0d) || u == 0x20 || u == 0x85 || u == 0xa0 || u == 0x1680 || (0x2000
        <= u && u <= 0x200a) || u == 0x2028 || u == 0x2029 || u == 0x202f || u == 0x205f || u
        == 0x3000
}

/// `s` without its trailing white space.
pub open spec fn trim_end(s: Seq<char>) -> Seq<char>
    decreases s.len(),
{
    if s.len() > 0 && is_white_space(s.last()) {
        trim_end(s.drop_last())
    } else {
        s
    }
}

/// `s` without its leading white space.
pub open spec fn trim_start(s: Seq<char>) -> Seq<char>
    decreases s.len(),
{
    if s.len() > 0 && is_white_space(s[0]) {
        trim_start(s.drop_first())
    } else {
        s
    }
}

/// `s` without leading or trailing white space, as `str::trim` gives it.
pub open spec fn trim(s: Seq<char>) -> Seq<char> {
    trim_start(trim_end(s))
}

/// The number of characters that remain once the trailing white space of
/// `chars` is cut off.
fn trimmed_end_len(chars: &Vec<char>) -> (e: usize)
    ensures
        e <= chars@.len(),
        trim_end(chars@) == chars@.take(e as int),
{
    let mut e = chars.len();
    assert(chars@.take(e as int) =~= chars@);
    while e > 0 && white_space(chars[e - 1])
        invariant
            e <= chars@.len(),
            trim_end(chars@) == trim_end(chars@.take(e as int)),
        decreases e,
    {
        assert(chars@.take(e as int).drop_last() =~= chars@.take(e - 1));
        e = e - 1;
    }
    e
}

/// The index of the first character of `chars[..end]` that is not white space
/// (`end` when there is none).
fn trimmed_start_index(chars: &Vec<char>, end: usize) -> (b: usize)
    requires
        end <= chars@.len(),
    ensures
        b <= end,
        trim_start(chars@.take(end as int)) == chars@.subrange(b as int, end as int),
{
    let mut b: usize = 0;
    assert(chars@.subrange(0, end as int) =~= chars@.take(end as int));
    while b < end && white_space(chars[b])
        invariant
            b <= end <= chars@.len(),
            trim_start(chars@.take(end as int)) == trim_start(
                chars@.subrange(b as int, end as int),
            ),
        decreases end - b,
    {
        assert(chars@.subrange(b as int, end as int).drop_first() =~= chars@.subrange(
            b + 1,
            end as int,
        ));
        b = b + 1;
    }
    b
}

/// `s` with its trailing white space removed, as `str::trim_end` gives it.
pub fn trimmed_end(s: &str) -> (r: String)
    ensures
        r@ == trim_end(s@),
{
    let chars = chars_of(s);
    let e = trimmed_end_len(&chars);
    assert(chars@.subrange(0, e as int) =~= chars@.take(e as int));
    string_of_range(&chars, 0, e)
}

/// `s` with leading and trailing white space removed, as `str::trim` gives it.
pub fn trimmed(s: &str) -> (r: String)
    ensures
        r@ == trim(s@),
{
    let chars = chars_of(s);
    let e = trimmed_end_len(&chars);
    let b = trimmed_start_index(&chars, e);
    string_of_range(&chars, b, e)
}

/// Whether `needle` occurs in `hay` as a run of consecutive characters.
pub open spec fn occurs_in(needle: Seq<char>, hay: Seq<char>) -> bool {
    exists|i: int| 0 <= i <= hay.len() - needle.len() && #[trigger] hay.subrange(i, i + needle.len()) == needle
}

/// Whether `hay[at..]` starts with `needle`.
fn matches_at(hay: &Vec<char>, needle: &Vec<char>, at: usize) -> (r: bool)
    requires
        at + needle@.len() <= hay@.len(),
    ensures
        r == (hay@.subrange(at as int, at + needle@.len()) == needle@),
{
    let mut k: usize = 0;
    while k < needle.len()
        invariant
            at + needle@.len() <= hay@.len(),
            hay@.len() == hay.len(),
            k <= needle@.len(),
            forall|j: int| 0 <= j < k ==> hay@[at + j] == needle@[j],
        decreases needle@.len() - k,
    {
        if hay[at + k] != needle[k] {
            assert(hay@.subrange(at as int, at + needle@.len())[k as int] != needle@[k as int]);
            return false;
        }
        k = k + 1;
    }
    assert(hay@.subrange(at as int, at + needle@.len()) =~= needle@);
    true
}

/// Whether `needle` occurs in `hay`, as `str::contains` answers for a string pattern.
pub fn contains_text(hay: &Vec<char>, needle: &Vec<char>) -> (r: bool)
    ensures
        r == occurs_in(needle@, hay@),
{
    if needle.len() > hay.len() {
        return false;
    }
    let last = hay.len() - needle.len();
    let mut i: usize = 0;
    loop
        invariant
            last == hay@.len() - needle@.len(),
            needle@.len() <= hay@.len(),
            i <= last,
            forall|j: int| 0 <= j < i ==> #[trigger] hay@.subrange(j, j + needle@.len()) != needle@,
        decreases last - i,
    {
        if matches_at(hay, needle, i) {
            return true;
        }
        if i == last {
            return false;
        }
        i = i + 1;
    }
}

/// Whether `s` begins with `prefix`.
pub open spec fn starts_with(s: Seq<char>, prefix: Seq<char>) -> bool {
    prefix.len() <= s.len() && s.take(prefix.len() as int) == prefix
}

/// Whether `s` begins with `prefix`.
pub fn has_prefix(s: &Vec<char>, prefix: &Vec<char>) -> (r: bool)
    ensures
        r == starts_with(s@, prefix@),
{
    if prefix.len() > s.len() {
        return false;
    }
    let r = matches_at(s, prefix, 0);
    assert(s@.subrange(0, prefix@.len() as int) =~= s@.take(prefix@.len() as int));
    r
}

/// The parts joined in order, with `sep` between each two neighbours
/// (empty when there are no parts), as `[..].join(sep)` gives it.
pub open spec fn join_with(parts: Seq<Seq<char>>, sep: Seq<char>) -> Seq<char>
    decreases parts.len(),
{
    if parts.len() == 0 {
        Seq::empty()
    } else if parts.len() == 1 {
        parts[0]
    } else {
        join_with(parts.drop_last(), sep) + sep + parts.last()
    }
}

/// The total number of characters of the parts.
pub open spec fn total_len(parts: Seq<Seq<char>>) -> nat
    decreases parts.len(),
{
    if parts.len() == 0 {
        0
    } else {
        total_len(parts.drop_last()) + parts.last().len()
    }
}

/// Joining keeps every part: one part joins to itself, and adding a part to
/// parts that are not empty adds the separator and that part at the end.
pub proof fn lemma_join_push(parts: Seq<Seq<char>>, sep: Seq<char>, p: Seq<char>)
    ensures
        join_with(Seq::empty(), sep) == Seq::<char>::empty(),
        join_with(seq![p], sep) == p,
        parts.len() > 0 ==> join_with(parts.push(p), sep) == join_with(parts, sep) + sep + p,
{
    assert(parts.push(p).drop_last() =~= parts);
}

/// The joined text is as long as all parts together plus one separator
/// between each two neighbours.
pub proof fn lemma_join_len(parts: Seq<Seq<char>>, sep: Seq<char>)
    requires
        parts.len() > 0,
    ensures
        join_with(parts, sep).len() == total_len(parts) + (parts.len() - 1) * sep.len(),
    decreases parts.len(),
{
    if parts.len() > 1 {
        let prev = parts.drop_last();
        lemma_join_len(prev, sep);
        let n = prev.len() as int;
        let s = sep.len() as int;
        assert((n - 1) * s + s == n * s) by (nonlinear_arith);
        assert(join_with(parts, sep) == join_with(prev, sep) + sep + parts.last());
        assert(parts.len() - 1 == n);
    } else {
        assert(parts.drop_last().len() == 0);
        assert(total_len(parts.drop_last()) == 0);
        assert(parts.last() == parts[0]);
        assert(total_len(parts) == parts[0].len());
        assert((parts.len() - 1) * sep.len() == 0) by (nonlinear_arith)
            requires
                parts.len() == 1,
        ;
    }
}

/// Whether the characters of `p` stand in `c` from index `i` on.
pub open spec fn stands_at(c: Seq<char>, p: Seq<char>, i: int) -> bool {
    0 <= i && i + p.len() <= c.len() && forall|k: int| 0 <= k < p.len() ==> c[i + k] == p[k]
}

/// `occurs_in` says that `needle` stands somewhere in `hay`, character by
/// character.
pub proof fn lemma_occurs_in_chars(needle: Seq<char>, hay: Seq<char>)
    ensures
        occurs_in(needle, hay) <==> exists|i: int| #[trigger] stands_at(hay, needle, i),
{
    if occurs_in(needle, hay) {
        let i = choose|i: int| 0 <= i <= hay.len() - needle.len() && #[trigger] hay.subrange(i, i + needle.len()) == needle;
        assert forall|k: int| 0 <= k < needle.len() implies hay[i + k] == needle[k] by {
            assert(hay.subrange(i, i + needle.len())[k] == hay[i + k]);
        }
        assert(stands_at(hay, needle, i));
    }
    if exists|i: int| #[trigger] stands_at(hay, needle, i) {
        let i = choose|i: int| #[trigger] stands_at(hay, needle, i);
        assert(hay.subrange(i, i + needle.len()) =~= needle);
    }
}

/// Where part `k` starts in the joined text: after the parts before it and a
/// separator after each of them.
pub open spec fn part_offset(parts: Seq<Seq<char>>, sep: Seq<char>, k: int) -> int {
    total_len(parts.take(k)) + k * sep.len()
}

/// Every part stands, whole and in order, in the joined text: part `k` starts
/// after the parts before it and their separators.
pub proof fn lemma_join_holds_parts(parts: Seq<Seq<char>>, sep: Seq<char>)
    ensures
        forall|k: int|
            0 <= k < parts.len() ==> #[trigger] stands_at(
                join_with(parts, sep),
                parts[k],
                part_offset(parts, sep, k),
            ),
    decreases parts.len(),
{
    if parts.len() == 1 {
        assert(parts.take(0).len() == 0);
        assert(total_len(parts.take(0)) == 0);
        assert(part_offset(parts, sep, 0) == 0);
    } else if parts.len() > 1 {
        let prev = parts.drop_last();
        let n = prev.len() as int;
        let s = sep.len() as int;
        lemma_join_holds_parts(prev, sep);
        lemma_join_len(prev, sep);
        let jp = join_with(prev, sep);
        let j = join_with(parts, sep);
        assert(j == jp + sep + parts.last());
        assert forall|k: int| 0 <= k < parts.len() implies #[trigger] stands_at(
            j,
            parts[k],
            part_offset(parts, sep, k),
        ) by {
            if k < n {
                assert(parts.take(k) =~= prev.take(k));
                assert(parts[k] == prev[k]);
                assert(stands_at(jp, prev[k], part_offset(prev, sep, k)));
                assert forall|i: int| 0 <= i < parts[k].len() implies j[part_offset(parts, sep, k) + i]
                    == parts[k][i] by {
                    assert(jp[part_offset(prev, sep, k) + i] == prev[k][i]);
                }
            } else {
                assert(parts.take(k) =~= prev);
                assert((n - 1) * s + s == n * s) by (nonlinear_arith);
                assert(part_offset(parts, sep, k) == jp.len() + s);
                assert forall|i: int| 0 <= i < parts[k].len() implies j[part_offset(parts, sep, k) + i]
                    == parts[k][i] by {
                    assert(parts[k] == parts.last());
                }
            }
        }
    }
}

} // verus!
