//! Text as sequences of characters: searching, replacing, trimming and numerals.

use vstd::prelude::*;
use vstd::slice::*;
use vstd::string::*;

verus! {

/// `String::push`: appends one character.
pub assume_specification[ std::string::String::push ](s: &mut std::string::String, c: char)
    ensures
        final(s)@ == old(s)@.push(c),
;

/// `c` has the Unicode property `White_Space`.
pub open spec fn is_whitespace(c: char) -> bool {
    ||| '\u{9}' <= c <= '\u{d}'
    ||| c == ' '
    ||| c == '\u{85}'
    ||| c == '\u{a0}'
    ||| c == '\u{1680}'
    ||| '\u{2000}' <= c <= '\u{200a}'
    ||| c == '\u{2028}'
    ||| c == '\u{2029}'
    ||| c == '\u{202f}'
    ||| c == '\u{205f}'
    ||| c == '\u{3000}'
}

/// `char::is_whitespace`: whether Unicode's property list gives the character the property
/// `White_Space`.
pub assume_specification[ char::is_whitespace ](c: char) -> (b: bool)
    ensures
        b == is_whitespace(c),
;

/// `pattern` stands in `s` at position `i`.
pub open spec fn occurs_at(s: Seq<char>, pattern: Seq<char>, i: int) -> bool {
    0 <= i && i + pattern.len() <= s.len() && s.subrange(i, i + pattern.len()) == pattern
}

pub open spec fn starts_with(s: Seq<char>, pattern: Seq<char>) -> bool {
    occurs_at(s, pattern, 0)
}

pub open spec fn ends_with(s: Seq<char>, pattern: Seq<char>) -> bool {
    occurs_at(s, pattern, s.len() - pattern.len())
}

/// `pattern` stands somewhere in `s`.
pub open spec fn contains_text(s: Seq<char>, pattern: Seq<char>) -> bool {
    exists|i: int| #[trigger] occurs_at(s, pattern, i)
}

/// The first position at or after `from` at which `pattern` stands in `s`.
pub open spec fn find_from(s: Seq<char>, pattern: Seq<char>, from: int) -> Option<int>
    decreases s.len() - from + 1,
{
    if from < 0 || from > s.len() {
        None
    } else if occurs_at(s, pattern, from) {
        Some(from)
    } else {
        find_from(s, pattern, from + 1)
    }
}

/// `s` with every non-overlapping occurrence of `from`, taken from the left, replaced by `to`. An
/// empty `from` stands before each character and at the end.
pub open spec fn replace_all(s: Seq<char>, from: Seq<char>, to: Seq<char>) -> Seq<char>
    decreases s.len(),
{
    if s.len() == 0 {
        if from.len() == 0 {
            to
        } else {
            s
        }
    } else if from.len() == 0 {
        to + seq![s[0]] + replace_all(s.drop_first(), from, to)
    } else if starts_with(s, from) {
        to + replace_all(s.skip(from.len() as int), from, to)
    } else {
        seq![s[0]] + replace_all(s.drop_first(), from, to)
    }
}

/// `s` without its leading white space.
pub open spec fn trim_start(s: Seq<char>) -> Seq<char>
    decreases s.len(),
{
    if s.len() > 0 && is_whitespace(s[0]) {
        trim_start(s.drop_first())
    } else {
        s
    }
}

/// `s` without its trailing white space.
pub open spec fn trim_end(s: Seq<char>) -> Seq<char>
    decreases s.len(),
{
    if s.len() > 0 && is_whitespace(s.last()) {
        trim_end(s.drop_last())
    } else {
        s
    }
}

/// `s` without white space at either end.
pub open spec fn trim(s: Seq<char>) -> Seq<char> {
    trim_end(trim_start(s))
}

/// The characters of `s`.
pub fn chars_of(s: &str) -> (r: Vec<char>)
    ensures
        r@ == s@,
{
    let mut r: Vec<char> = Vec::new();
    for c in it: s.chars()
        invariant
            it.seq() == s@,
            r@ == s@.take(it.index()),
    {
        r.push(c);
    }
    assert(s@.take(s@.len() as int) == s@);
    r
}

/// The string made of `chars`.
pub fn string_of(chars: &[char]) -> (r: String)
    ensures
        r@ == chars@,
{
    let mut r = String::new();
    let mut i: usize = 0;
    while i < chars.len()
        invariant
            i <= chars@.len(),
            r@ == chars@.take(i as int),
        decreases chars@.len() - i,
    {
        r.push(chars[i]);
        i += 1;
    }
    assert(chars@.take(chars@.len() as int) == chars@);
    r
}

/// Whether `pattern` stands in `s` at position `i`.
pub fn stands_at(s: &[char], pattern: &[char], i: usize) -> (r: bool)
    ensures
        r == occurs_at(s@, pattern@, i as int),
{
    if i > s.len() || pattern.len() > s.len() - i {
        return false;
    }
    let mut j: usize = 0;
    while j < pattern.len()
        invariant
            j <= pattern@.len(),
            i + pattern@.len() <= s.len(),
            forall|k: int| 0 <= k < j ==> s@[i + k] == pattern@[k],
        decreases pattern@.len() - j,
    {
        if s[i + j] != pattern[j] {
            assert(s@.subrange(i as int, i + pattern@.len())[j as int] != pattern@[j as int]);
            return false;
        }
        j += 1;
    }
    assert(s@.subrange(i as int, i + pattern@.len()) =~= pattern@);
    true
}

/// The first position at or after `from` at which `pattern` stands in `s`.
pub fn find_text(s: &[char], pattern: &[char], from: usize) -> (r: Option<usize>)
    ensures
        (match r {
            Some(i) => find_from(s@, pattern@, from as int) == Some(i as int),
            None => find_from(s@, pattern@, from as int) is None,
        }),
{
    let mut i: usize = from;
    while i < s.len()
        invariant
            from <= i,
            find_from(s@, pattern@, from as int) == find_from(s@, pattern@, i as int),
        decreases s@.len() - i,
    {
        if stands_at(s, pattern, i) {
            return Some(i);
        }
        i += 1;
    }
    if stands_at(s, pattern, i) {
        Some(i)
    } else {
        assert(find_from(s@, pattern@, i + 1) is None);
        None
    }
}

/// What `find_from` finds is an occurrence, and none comes before it.
pub proof fn lemma_find_from(s: Seq<char>, pattern: Seq<char>, from: int)
    requires
        0 <= from,
    ensures
        (match find_from(s, pattern, from) {
            Some(i) => from <= i && occurs_at(s, pattern, i) && forall|j: int|
                from <= j < i ==> !#[trigger] occurs_at(s, pattern, j),
            None => forall|j: int| from <= j ==> !#[trigger] occurs_at(s, pattern, j),
        }),
    decreases s.len() - from + 1,
{
    if from <= s.len() && !occurs_at(s, pattern, from) {
        lemma_find_from(s, pattern, from + 1);
    }
}

/// Whether `pattern` stands somewhere in `s`.
pub fn has_text(s: &[char], pattern: &[char]) -> (r: bool)
    ensures
        r == contains_text(s@, pattern@),
{
    proof {
        lemma_find_from(s@, pattern@, 0);
    }
    find_text(s, pattern, 0).is_some()
}

/// Whether `s` begins with `pattern`.
pub fn has_prefix(s: &[char], pattern: &[char]) -> (r: bool)
    ensures
        r == starts_with(s@, pattern@),
{
    stands_at(s, pattern, 0)
}

/// Whether `s` ends with `pattern`.
pub fn has_suffix(s: &[char], pattern: &[char]) -> (r: bool)
    ensures
        r == ends_with(s@, pattern@),
{
    pattern.len() <= s.len() && stands_at(s, pattern, s.len() - pattern.len())
}

/// Whether `a` and `b` are the same.
pub fn same_chars(a: &[char], b: &[char]) -> (r: bool)
    ensures
        r == (a@ == b@),
{
    if a.len() != b.len() {
        return false;
    }
    let r = stands_at(a, b, 0);
    assert(a@.subrange(0, b@.len() as int) =~= a@);
    r
}

/// Appends `more` to `to`.
pub fn push_all(to: &mut Vec<char>, more: &[char])
    ensures
        final(to)@ == old(to)@ + more@,
{
    let mut i: usize = 0;
    while i < more.len()
        invariant
            i <= more@.len(),
            to@ == old(to)@ + more@.take(i as int),
        decreases more@.len() - i,
    {
        to.push(more[i]);
        i += 1;
        assert(more@.take(i as int) == more@.take(i - 1).push(more@[i - 1]));
    }
    assert(more@.take(more@.len() as int) == more@);
}

/// `s` with every non-overlapping occurrence of `from`, taken from the left, replaced by `to`.
pub fn replace_text(s: &[char], from: &[char], to: &[char]) -> (r: Vec<char>)
    ensures
        r@ == replace_all(s@, from@, to@),
{
    let mut r: Vec<char> = Vec::new();
    let mut i: usize = 0;
    assert(s@.skip(0) == s@);
    while i < s.len()
        invariant
            i <= s@.len(),
            r@ + replace_all(s@.skip(i as int), from@, to@) == replace_all(s@, from@, to@),
        decreases s@.len() - i,
    {
        let ghost rest = s@.skip(i as int);
        proof {
            assert(starts_with(rest, from@) == occurs_at(s@, from@, i as int)) by {
                if i + from@.len() <= s@.len() {
                    assert(rest.subrange(0, from@.len() as int) == s@.subrange(
                        i as int,
                        i + from@.len(),
                    ));
                }
            }
        }
        let ghost before = r@;
        if from.len() == 0 {
            push_all(&mut r, to);
            r.push(s[i]);
            i += 1;
            assert(rest.drop_first() == s@.skip(i as int));
            assert(r@ == before + (to@ + seq![rest[0]]));
        } else if stands_at(s, from, i) {
            push_all(&mut r, to);
            i += from.len();
            assert(rest.skip(from@.len() as int) == s@.skip(i as int));
        } else {
            r.push(s[i]);
            i += 1;
            assert(rest.drop_first() == s@.skip(i as int));
            assert(before.push(rest[0]) == before + seq![rest[0]]);
        }
        assert(r@ + replace_all(s@.skip(i as int), from@, to@) == before + replace_all(
            rest,
            from@,
            to@,
        ));
    }
    assert(s@.skip(i as int).len() == 0);
    if from.len() == 0 {
        push_all(&mut r, to);
    }
    r
}

/// `s` without white space at its end.
pub fn without_trailing_space<'a>(s: &'a [char]) -> (r: &'a [char])
    ensures
        r@ == trim_end(s@),
{
    let mut end: usize = s.len();
    assert(s@.take(s@.len() as int) == s@);
    while end > 0 && s[end - 1].is_whitespace()
        invariant
            end <= s@.len(),
            trim_end(s@.take(end as int)) == trim_end(s@),
        decreases end,
    {
        assert(s@.take(end as int).drop_last() == s@.take(end - 1));
        end -= 1;
    }
    slice_subrange(s, 0, end)
}

/// `s` without white space at its beginning.
pub fn without_leading_space<'a>(s: &'a [char]) -> (r: &'a [char])
    ensures
        r@ == trim_start(s@),
{
    let mut start: usize = 0;
    assert(s@.skip(0) == s@);
    while start < s.len() && s[start].is_whitespace()
        invariant
            start <= s@.len(),
            trim_start(s@.skip(start as int)) == trim_start(s@),
        decreases s@.len() - start,
    {
        assert(s@.skip(start as int).drop_first() == s@.skip(start + 1));
        start += 1;
    }
    let r = slice_subrange(s, start, s.len());
    assert(r@ == s@.skip(start as int));
    r
}

/// `s` without white space at either end.
pub fn trimmed<'a>(s: &'a [char]) -> (r: &'a [char])
    ensures
        r@ == trim(s@),
{
    without_trailing_space(without_leading_space(s))
}

/// Whether two texts are the same.
pub fn same_text(a: &str, b: &str) -> (r: bool)
    ensures
        r == (a@ == b@),
{
    let left = chars_of(a);
    let right = chars_of(b);
    left.len() == right.len() && {
        let equal = stands_at(&left, &right, 0);
        assert(left@.subrange(0, left@.len() as int) == left@);
        equal
    }
}

/// `a` comes before `b` in the order of their characters, which is also the order of their
/// UTF-8 bytes.
pub open spec fn text_before(a: Seq<char>, b: Seq<char>) -> bool
    decreases b.len(),
{
    if b.len() == 0 {
        false
    } else if a.len() == 0 {
        true
    } else if a[0] == b[0] {
        text_before(a.drop_first(), b.drop_first())
    } else {
        a[0] < b[0]
    }
}

/// Of two different texts exactly one comes before the other.
pub proof fn lemma_text_before_total(a: Seq<char>, b: Seq<char>)
    ensures
        a == b ==> !text_before(a, b),
        a != b ==> text_before(a, b) != text_before(b, a),
    decreases b.len(),
{
    if a.len() > 0 && b.len() > 0 {
        lemma_text_before_total(a.drop_first(), b.drop_first());
        if a[0] == b[0] && a.drop_first() == b.drop_first() {
            assert(a =~= seq![a[0]] + a.drop_first());
            assert(b =~= seq![b[0]] + b.drop_first());
        }
    } else {
        assert(a.len() == 0 && b.len() == 0 ==> a =~= b);
    }
}

/// The order of texts is transitive.
pub proof fn lemma_text_before_transitive(a: Seq<char>, b: Seq<char>, c: Seq<char>)
    requires
        text_before(a, b),
        text_before(b, c),
    ensures
        text_before(a, c),
    decreases c.len(),
{
    if a.len() > 0 && a[0] == b[0] && b[0] == c[0] {
        lemma_text_before_transitive(a.drop_first(), b.drop_first(), c.drop_first());
    }
}

/// Whether `a` comes before `b` in the order of their characters.
pub fn comes_before(a: &str, b: &str) -> (r: bool)
    ensures
        r == text_before(a@, b@),
{
    let left = chars_of(a);
    let right = chars_of(b);
    let mut i: usize = 0;
    assert(a@.skip(0) == a@ && b@.skip(0) == b@);
    while i < left.len() && i < right.len()
        invariant
            left@ == a@,
            right@ == b@,
            i <= left@.len(),
            i <= right@.len(),
            text_before(left@, right@) == text_before(left@.skip(i as int), right@.skip(i as int)),
        decreases left@.len() - i,
    {
        if left[i] != right[i] {
            return left[i] < right[i];
        }
        assert(left@.skip(i as int).drop_first() == left@.skip(i + 1));
        assert(right@.skip(i as int).drop_first() == right@.skip(i + 1));
        i += 1;
    }
    i < right.len()
}

/// The digit that stands for `n`.
pub open spec fn digit(n: int) -> char {
    (48 + n) as char
}

/// `n` in decimal, without leading zeros.
pub open spec fn decimal(n: nat) -> Seq<char>
    decreases n,
{
    if n < 10 {
        seq![digit(n as int)]
    } else {
        decimal(n / 10).push(digit((n % 10) as int))
    }
}

/// `n` in decimal, without leading zeros.
pub fn decimal_chars(n: u64) -> (r: Vec<char>)
    ensures
        r@ == decimal(n as nat),
    decreases n,
{
    let last = (48 + (n % 10) as u8) as char;
    if n < 10 {
        let mut r: Vec<char> = Vec::new();
        r.push(last);
        assert(r@ == decimal(n as nat));
        r
    } else {
        let mut r = decimal_chars(n / 10);
        r.push(last);
        r
    }
}

/// A number's decimal form is made of digits.
pub proof fn lemma_decimal_digits(n: nat)
    ensures
        decimal(n).len() > 0,
        forall|i: int| 0 <= i < decimal(n).len() ==> '0' <= #[trigger] decimal(n)[i] <= '9',
    decreases n,
{
    if n >= 10 {
        lemma_decimal_digits(n / 10);
    }
}

/// The bytes of two texts one after the other are those of the first, followed by those of the
/// second.
pub proof fn lemma_encode_concat(a: Seq<char>, b: Seq<char>)
    ensures
        vstd::utf8::encode_utf8(a + b) == vstd::utf8::encode_utf8(a) + vstd::utf8::encode_utf8(b),
    decreases a.len(),
{
    if a.len() == 0 {
        assert(a + b =~= b);
    } else {
        assert((a + b).drop_first() =~= a.drop_first() + b);
        lemma_encode_concat(a.drop_first(), b);
    }
}

/// The text of `s`, where there is one.
pub open spec fn optional(s: Option<String>) -> Option<Seq<char>> {
    match s {
        Some(s) => Some(s@),
        None => None,
    }
}

/// The texts of `strings`.
pub open spec fn texts(strings: Seq<String>) -> Seq<Seq<char>> {
    Seq::new(strings.len(), |i: int| strings[i]@)
}

pub broadcast proof fn lemma_texts_push(strings: Seq<String>, s: String)
    ensures
        #[trigger] texts(strings.push(s)) == texts(strings).push(s@),
{
    assert(texts(strings.push(s)) =~= texts(strings).push(s@));
}

/// Whether `s` is one of `strings`.
pub fn among(strings: &Vec<String>, s: &str) -> (r: bool)
    ensures
        r == texts(strings@).contains(s@),
{
    let mut i: usize = 0;
    while i < strings.len()
        invariant
            i <= strings@.len(),
            forall|j: int| 0 <= j < i ==> (#[trigger] strings@[j])@ != s@,
        decreases strings@.len() - i,
    {
        if same_text(strings[i].as_str(), s) {
            assert(texts(strings@)[i as int] == s@);
            return true;
        }
        i += 1;
    }
    assert forall|j: int| 0 <= j < texts(strings@).len() implies texts(strings@)[j] != s@ by {
        assert(strings@[j]@ != s@);
    }
    false
}

/// The last position at which `pattern` stands in `s`.
pub open spec fn find_last(s: Seq<char>, pattern: Seq<char>) -> Option<int>
    decreases s.len(),
{
    if ends_with(s, pattern) {
        Some(s.len() - pattern.len())
    } else if s.len() == 0 {
        None
    } else {
        find_last(s.drop_last(), pattern)
    }
}

/// The last position at which `pattern` stands in `s`.
pub fn find_last_text(s: &[char], pattern: &[char]) -> (r: Option<usize>)
    ensures
        (match r {
            Some(i) => find_last(s@, pattern@) == Some(i as int) && i + pattern@.len() <= s@.len(),
            None => find_last(s@, pattern@) is None,
        }),
{
    let mut end: usize = s.len();
    assert(s@.take(end as int) == s@);
    while end > 0
        invariant
            end <= s.len(),
            find_last(s@, pattern@) == find_last(s@.take(end as int), pattern@),
        decreases end,
    {
        let ghost part = s@.take(end as int);
        let head = slice_subrange(s, 0, end);
        assert(head@ == part);
        if has_suffix(head, pattern) {
            return Some(end - pattern.len());
        }
        end -= 1;
        assert(part.drop_last() == s@.take(end as int));
    }
    let head = slice_subrange(s, 0, 0);
    assert(head@ == s@.take(0));
    if has_suffix(head, pattern) {
        Some(0)
    } else {
        None
    }
}

/// Trimming makes no text longer.
pub proof fn lemma_trim_len(s: Seq<char>)
    ensures
        trim(s).len() <= s.len(),
{
    lemma_trim_start_len(s);
    lemma_trim_end_len(trim_start(s));
}

proof fn lemma_trim_start_len(s: Seq<char>)
    ensures
        trim_start(s).len() <= s.len(),
    decreases s.len(),
{
    if s.len() > 0 && is_whitespace(s[0]) {
        lemma_trim_start_len(s.drop_first());
    }
}

proof fn lemma_trim_end_len(s: Seq<char>)
    ensures
        trim_end(s).len() <= s.len(),
    decreases s.len(),
{
    if s.len() > 0 && is_whitespace(s.last()) {
        lemma_trim_end_len(s.drop_last());
    }
}

/// The parts of `s` between the characters `c`.
pub open spec fn split(s: Seq<char>, c: char) -> Seq<Seq<char>>
    decreases s.len(),
{
    if s.len() == 0 {
        seq![Seq::empty()]
    } else if s.last() == c {
        split(s.drop_last(), c).push(Seq::empty())
    } else {
        let parts = split(s.drop_last(), c);
        parts.drop_last().push(parts.last().push(s.last()))
    }
}

/// `parts`, with the character `c` between them.
pub open spec fn join(parts: Seq<Seq<char>>, c: char) -> Seq<char>
    decreases parts.len(),
{
    if parts.len() == 0 {
        Seq::empty()
    } else if parts.len() == 1 {
        parts[0]
    } else {
        join(parts.drop_last(), c).push(c) + parts.last()
    }
}

/// A text has at least one part, and none of its parts holds what is between them.
pub proof fn lemma_split(s: Seq<char>, c: char)
    ensures
        split(s, c).len() > 0,
        forall|i: int| 0 <= i < split(s, c).len() ==> !(#[trigger] split(s, c)[i]).contains(c),
    decreases s.len(),
{
    if s.len() > 0 {
        lemma_split(s.drop_last(), c);
        let parts = split(s.drop_last(), c);
        assert forall|i: int| 0 <= i < split(s, c).len() implies !(#[trigger] split(
            s,
            c,
        )[i]).contains(c) by {
            if s.last() != c && i == parts.len() - 1 {
                let part = split(s, c)[i];
                assert(part == parts.last().push(s.last()));
                if part.contains(c) {
                    let k = choose|k: int| 0 <= k < part.len() && part[k] == c;
                    assert(parts.last()[k] == c);
                    assert(parts[i].contains(c));
                }
            } else if i < parts.len() {
                assert(split(s, c)[i] == parts[i]);
            } else {
                assert(split(s, c)[i].len() == 0);
            }
        }
    }
}

/// What follows the last `c` of a text is its last part.
pub proof fn lemma_split_last(a: Seq<char>, c: char, b: Seq<char>)
    requires
        !b.contains(c),
    ensures
        split(a.push(c) + b, c) == split(a, c).push(b),
    decreases b.len(),
{
    lemma_split(a, c);
    if b.len() == 0 {
        assert(a.push(c) + b =~= a.push(c));
        assert(a.push(c).drop_last() =~= a);
        assert(b =~= Seq::empty());
    } else {
        let whole = a.push(c) + b;
        assert(b[b.len() - 1] == b.last());
        assert(whole.drop_last() =~= a.push(c) + b.drop_last());
        assert(!b.drop_last().contains(c)) by {
            if b.drop_last().contains(c) {
                let k = choose|k: int| 0 <= k < b.drop_last().len() && b.drop_last()[k] == c;
                assert(b[k] == c);
            }
        }
        lemma_split_last(a, c, b.drop_last());
        assert(b.drop_last().push(b.last()) =~= b);
        assert(split(a, c).push(b.drop_last()).drop_last() =~= split(a, c));
    }
}

/// A text without `c` has one part.
pub proof fn lemma_split_whole(s: Seq<char>, c: char)
    requires
        !s.contains(c),
    ensures
        split(s, c) == seq![s],
    decreases s.len(),
{
    if s.len() > 0 {
        assert(s[s.len() - 1] == s.last());
        assert(!s.drop_last().contains(c)) by {
            if s.drop_last().contains(c) {
                let k = choose|k: int| 0 <= k < s.drop_last().len() && s.drop_last()[k] == c;
                assert(s[k] == c);
            }
        }
        lemma_split_whole(s.drop_last(), c);
        assert(s.drop_last().push(s.last()) =~= s);
        assert(seq![s.drop_last()].drop_last().push(s) =~= seq![s]);
    } else {
        assert(s =~= Seq::empty());
    }
}

/// Parts that do not hold what is put between them come back from the whole.
pub proof fn lemma_split_join(parts: Seq<Seq<char>>, c: char)
    requires
        parts.len() > 0,
        forall|i: int| 0 <= i < parts.len() ==> !(#[trigger] parts[i]).contains(c),
    ensures
        split(join(parts, c), c) == parts,
    decreases parts.len(),
{
    if parts.len() == 1 {
        assert(!parts[0].contains(c));
        lemma_split_whole(parts[0], c);
        assert(seq![parts[0]] =~= parts);
    } else {
        assert forall|i: int| 0 <= i < parts.drop_last().len() implies !(
        #[trigger] parts.drop_last()[i]).contains(c) by {
            assert(parts.drop_last()[i] == parts[i]);
        }
        lemma_split_join(parts.drop_last(), c);
        assert(!parts[parts.len() - 1].contains(c));
        lemma_split_last(join(parts.drop_last(), c), c, parts.last());
        assert(parts.drop_last().push(parts.last()) =~= parts);
    }
}

/// The texts of `parts`.
pub open spec fn char_texts(parts: Seq<Vec<char>>) -> Seq<Seq<char>> {
    Seq::new(parts.len(), |i: int| parts[i]@)
}

/// The parts of `s` between the characters `c`.
pub fn split_text(s: &[char], c: char) -> (r: Vec<Vec<char>>)
    ensures
        char_texts(r@) == split(s@, c),
{
    let mut done: Vec<Vec<char>> = Vec::new();
    let mut part: Vec<char> = Vec::new();
    let mut i: usize = 0;
    assert(s@.take(0) =~= Seq::empty());
    assert(char_texts(done@).push(part@) =~= seq![Seq::<char>::empty()]);
    while i < s.len()
        invariant
            i <= s@.len(),
            char_texts(done@).push(part@) == split(s@.take(i as int), c),
        decreases s@.len() - i,
    {
        assert(s@.take(i + 1).drop_last() =~= s@.take(i as int));
        let ghost before = char_texts(done@);
        let ghost last = part@;
        assert(before.push(last).drop_last() =~= before);
        if s[i] == c {
            done.push(part);
            part = Vec::new();
            assert(char_texts(done@) =~= before.push(last));
            assert(part@ =~= Seq::empty());
        } else {
            part.push(s[i]);
        }
        i += 1;
    }
    assert(s@.take(i as int) =~= s@);
    let ghost before = char_texts(done@);
    done.push(part);
    assert(char_texts(done@) =~= before.push(part@));
    done
}

/// `parts`, with the character `c` between them.
pub fn join_text(parts: &Vec<Vec<char>>, c: char) -> (r: Vec<char>)
    ensures
        r@ == join(char_texts(parts@), c),
{
    let mut r: Vec<char> = Vec::new();
    let mut i: usize = 0;
    let ghost all = char_texts(parts@);
    assert(all.take(0) =~= Seq::empty());
    while i < parts.len()
        invariant
            i <= parts@.len(),
            all == char_texts(parts@),
            r@ == join(all.take(i as int), c),
        decreases parts@.len() - i,
    {
        assert(all.take(i + 1).drop_last() =~= all.take(i as int));
        let ghost before = r@;
        if i > 0 {
            r.push(c);
        }
        push_all(&mut r, &parts[i]);
        i += 1;
        assert(r@ =~= join(all.take(i as int), c));
    }
    assert(all.take(i as int) =~= all);
    r
}

/// `c` is one of the ten digits.
pub open spec fn is_digit(c: char) -> bool {
    '0' <= c <= '9'
}

/// The number that the digits `s` stand for.
pub open spec fn digits_value(s: Seq<char>) -> Option<nat>
    decreases s.len(),
{
    if s.len() == 0 {
        None
    } else if !is_digit(s.last()) {
        None
    } else if s.len() == 1 {
        Some((s.last() as u32 - 48) as nat)
    } else {
        match digits_value(s.drop_last()) {
            Some(n) => Some((10 * n + (s.last() as u32 - 48)) as nat),
            None => None,
        }
    }
}

/// The number that `s` stands for: digits, with a plus sign before them or not.
pub open spec fn number_value(s: Seq<char>) -> Option<nat> {
    if s.len() > 0 && s[0] == '+' {
        digits_value(s.drop_first())
    } else {
        digits_value(s)
    }
}

proof fn lemma_longer_number(s: Seq<char>, n: int)
    requires
        0 < n <= s.len(),
    ensures
        digits_value(s) matches Some(whole) ==> digits_value(s.take(n)) matches Some(part) && part
            <= whole,
    decreases s.len(),
{
    if n < s.len() {
        assert(s.drop_last().take(n) =~= s.take(n));
        lemma_longer_number(s.drop_last(), n);
    } else {
        assert(s.take(n) =~= s);
    }
}

/// The number that `s` stands for, where it has one that fits.
pub fn parse_u64(s: &[char]) -> (r: Option<u64>)
    ensures
        r == match number_value(s@) {
            Some(n) => if n <= u64::MAX {
                Some(n as u64)
            } else {
                None
            },
            None => None,
        },
{
    let start: usize = if s.len() > 0 && s[0] == '+' {
        1
    } else {
        0
    };
    let ghost digits = s@.skip(start as int);
    assert(start == 0 ==> digits =~= s@);
    assert(start == 1 ==> digits =~= s@.drop_first());
    if start == s.len() {
        return None;
    }
    let mut n: u64 = 0;
    let mut i: usize = start;
    while i < s.len()
        invariant
            start <= i <= s@.len(),
            start < s@.len(),
            digits == s@.skip(start as int),
            number_value(s@) == digits_value(digits),
            i > start ==> digits_value(digits.take(i - start)) == Some(n as nat),
            i == start ==> n == 0,
        decreases s@.len() - i,
    {
        let c = s[i];
        let ghost part = digits.take(i + 1 - start);
        proof {
            lemma_longer_number(digits, i + 1 - start);
            assert(part.drop_last() =~= digits.take(i - start));
            assert(part.last() == c);
        }
        if !('0' <= c && c <= '9') {
            return None;
        }
        let digit: u64 = (c as u32 - 48) as u64;
        assert(digits_value(part) == Some((10 * n + digit) as nat));
        if n > (u64::MAX - digit) / 10 {
            return None;
        }
        n = 10 * n + digit;
        i += 1;
    }
    assert(digits.take(i - start) =~= digits);
    Some(n)
}

proof fn lemma_digit_injective(a: int, b: int)
    requires
        0 <= a < 10,
        0 <= b < 10,
        digit(a) == digit(b),
    ensures
        a == b,
{
    let left = (48 + a) as u32;
    let right = (48 + b) as u32;
    assert((left as char) as u32 == left);
    assert((right as char) as u32 == right);
    assert(digit(a) == left as char);
    assert(digit(b) == right as char);
}

/// Different numbers have different decimal forms.
pub proof fn lemma_decimal_injective(a: nat, b: nat)
    requires
        decimal(a) == decimal(b),
    ensures
        a == b,
    decreases a,
{
    lemma_decimal_digits(a / 10);
    lemma_decimal_digits(b / 10);
    assert(a >= 10 ==> decimal(a) == decimal(a / 10).push(digit((a % 10) as int)));
    assert(b >= 10 ==> decimal(b) == decimal(b / 10).push(digit((b % 10) as int)));
    if a >= 10 && b >= 10 {
        assert(decimal(a).last() == decimal(b).last());
        assert(decimal(a).drop_last() =~= decimal(a / 10));
        assert(decimal(b).drop_last() =~= decimal(b / 10));
        lemma_decimal_injective(a / 10, b / 10);
        assert(decimal(a / 10).push(digit((a % 10) as int)).last() == digit((a % 10) as int));
        assert(decimal(b / 10).push(digit((b % 10) as int)).last() == digit((b % 10) as int));
        lemma_digit_injective((a % 10) as int, (b % 10) as int);
    } else if a < 10 && b < 10 {
        assert(decimal(a)[0] == decimal(b)[0]);
        assert(decimal(a) == seq![digit(a as int)]);
        assert(decimal(b) == seq![digit(b as int)]);
        assert(seq![digit(a as int)][0] == digit(a as int));
        assert(seq![digit(b as int)][0] == digit(b as int));
        lemma_digit_injective(a as int, b as int);
    } else if a < 10 {
        assert(decimal(a).len() == 1);
        assert(decimal(b).len() == decimal(b / 10).len() + 1);
    } else {
        assert(decimal(b).len() == 1);
        assert(decimal(a).len() == decimal(a / 10).len() + 1);
    }
}

/// A number comes back from its decimal form.
pub proof fn lemma_decimal_value(n: nat)
    ensures
        digits_value(decimal(n)) == Some(n),
        number_value(decimal(n)) == Some(n),
    decreases n,
{
    lemma_decimal_digits(n);
    let d = decimal(n);
    if n >= 10 {
        lemma_decimal_value(n / 10);
        lemma_decimal_digits(n / 10);
        assert(d.drop_last() =~= decimal(n / 10));
        assert(d.last() == digit((n % 10) as int));
        lemma_digit_value((n % 10) as int);
    } else {
        assert(d.last() == digit(n as int));
        lemma_digit_value(n as int);
    }
    assert('0' <= d[0] <= '9');
}

proof fn lemma_digit_value(n: int)
    requires
        0 <= n < 10,
    ensures
        is_digit(digit(n)),
        digit(n) as u32 - 48 == n,
{
    let code = (48 + n) as u32;
    assert((code as char) as u32 == code);
    assert(digit(n) == code as char);
}

/// A text begins with another exactly where something follows that to make it up.
pub proof fn lemma_starts_with(s: Seq<char>, pattern: Seq<char>)
    ensures
        starts_with(s, pattern) <==> exists|rest: Seq<char>| s == #[trigger] (pattern + rest),
{
    if starts_with(s, pattern) {
        assert(s =~= pattern + s.skip(pattern.len() as int));
    }
    assert forall|rest: Seq<char>| s == #[trigger] (pattern + rest) implies starts_with(
        s,
        pattern,
    ) by {
        assert(s.subrange(0, pattern.len() as int) =~= pattern);
    }
}

/// A text ends with another exactly where something before that makes it up.
pub proof fn lemma_ends_with(s: Seq<char>, pattern: Seq<char>)
    ensures
        ends_with(s, pattern) <==> exists|start: Seq<char>| s == #[trigger] (start + pattern),
{
    if ends_with(s, pattern) {
        assert(s =~= s.take(s.len() - pattern.len()) + pattern);
    }
    assert forall|start: Seq<char>| s == #[trigger] (start + pattern) implies ends_with(
        s,
        pattern,
    ) by {
        assert(s.subrange(s.len() - pattern.len(), s.len() as int) =~= pattern);
    }
}

/// One text stands in another exactly where it makes that up together with what is around it.
pub proof fn lemma_contains_text(s: Seq<char>, pattern: Seq<char>)
    ensures
        contains_text(s, pattern) <==> exists|start: Seq<char>, end: Seq<char>|
            s == #[trigger] (start + pattern + end),
{
    if contains_text(s, pattern) {
        let i = choose|i: int| #[trigger] occurs_at(s, pattern, i);
        assert(s =~= s.take(i) + pattern + s.skip(i + pattern.len()));
    }
    assert forall|start: Seq<char>, end: Seq<char>|
        s == #[trigger] (start + pattern + end) implies contains_text(s, pattern) by {
        assert(s.subrange(start.len() as int, (start.len() + pattern.len()) as int) =~= pattern);
        assert(occurs_at(s, pattern, start.len() as int));
    }
}

/// Where the text that is to be replaced does not stand, nothing is replaced.
pub proof fn lemma_replace_absent(s: Seq<char>, from: Seq<char>, to: Seq<char>)
    requires
        from.len() > 0,
        !contains_text(s, from),
    ensures
        replace_all(s, from, to) == s,
    decreases s.len(),
{
    if s.len() > 0 {
        assert(!occurs_at(s, from, 0));
        let rest = s.drop_first();
        assert(!contains_text(rest, from)) by {
            if contains_text(rest, from) {
                let i = choose|i: int| #[trigger] occurs_at(rest, from, i);
                assert(s.subrange(i + 1, i + 1 + from.len()) =~= rest.subrange(
                    i,
                    i + from.len(),
                ));
                assert(occurs_at(s, from, i + 1));
            }
        }
        lemma_replace_absent(rest, from, to);
        assert(seq![s[0]] + rest =~= s);
    }
}

/// The first occurrence of the text that is to be replaced gives way to the other, what is before
/// it stays, and what is after it is treated alike.
pub proof fn lemma_replace_first(
    start: Seq<char>,
    from: Seq<char>,
    end: Seq<char>,
    to: Seq<char>,
)
    requires
        from.len() > 0,
        forall|i: int| 0 <= i < start.len() ==> !#[trigger] occurs_at(start + from + end, from, i),
    ensures
        replace_all(start + from + end, from, to) == start + to + replace_all(end, from, to),
    decreases start.len(),
{
    let whole = start + from + end;
    if start.len() == 0 {
        assert(whole.subrange(0, from.len() as int) =~= from);
        assert(whole.skip(from.len() as int) =~= end);
        assert(start + to =~= to);
    } else {
        assert(!occurs_at(whole, from, 0));
        let rest = start.drop_first() + from + end;
        assert(whole.drop_first() =~= rest);
        assert forall|i: int| 0 <= i < start.drop_first().len() implies !#[trigger] occurs_at(
            rest,
            from,
            i,
        ) by {
            assert(!occurs_at(whole, from, i + 1));
            if i + from.len() <= rest.len() {
                assert(whole.subrange(i + 1, i + 1 + from.len()) =~= rest.subrange(
                    i,
                    i + from.len(),
                ));
            }
        }
        lemma_replace_first(start.drop_first(), from, end, to);
        assert(seq![start[0]] + (start.drop_first() + to + replace_all(end, from, to)) =~= start
            + to + replace_all(end, from, to));
    }
}

/// All of `s` is white space.
pub open spec fn is_blank(s: Seq<char>) -> bool {
    forall|i: int| 0 <= i < s.len() ==> is_whitespace(#[trigger] s[i])
}

/// What trimming takes away is white space, and what it leaves neither begins nor ends with any.
pub proof fn lemma_trim(s: Seq<char>)
    ensures
        exists|start: Seq<char>, end: Seq<char>|
            is_blank(start) && is_blank(end) && s == #[trigger] (start + trim(s) + end),
        trim(s).len() > 0 ==> !is_whitespace(trim(s)[0]) && !is_whitespace(trim(s).last()),
{
    let start = lemma_trim_start(s);
    let end = lemma_trim_end(trim_start(s));
    assert(s =~= start + trim(s) + end);
}

proof fn lemma_trim_start(s: Seq<char>) -> (start: Seq<char>)
    ensures
        is_blank(start),
        s == start + trim_start(s),
        trim_start(s).len() > 0 ==> !is_whitespace(trim_start(s)[0]),
    decreases s.len(),
{
    if s.len() > 0 && is_whitespace(s[0]) {
        let rest = lemma_trim_start(s.drop_first());
        let start = seq![s[0]] + rest;
        assert(s =~= seq![s[0]] + s.drop_first());
        assert(start + trim_start(s) =~= seq![s[0]] + (rest + trim_start(s)));
        start
    } else {
        assert(s =~= Seq::<char>::empty() + s);
        Seq::empty()
    }
}

proof fn lemma_trim_end(s: Seq<char>) -> (end: Seq<char>)
    ensures
        is_blank(end),
        s == trim_end(s) + end,
        trim_end(s).len() > 0 ==> !is_whitespace(trim_end(s).last()) && trim_end(s)[0] == s[0],
    decreases s.len(),
{
    if s.len() > 0 && is_whitespace(s.last()) {
        let rest = lemma_trim_end(s.drop_last());
        let end = rest.push(s.last());
        assert(s =~= s.drop_last().push(s.last()));
        assert(trim_end(s) + end =~= (trim_end(s) + rest).push(s.last()));
        end
    } else {
        assert(s =~= s + Seq::<char>::empty());
        Seq::empty()
    }
}

/// What `find_last` finds is an occurrence, and none comes after it.
pub proof fn lemma_find_last(s: Seq<char>, pattern: Seq<char>)
    ensures
        (match find_last(s, pattern) {
            Some(i) => occurs_at(s, pattern, i) && forall|j: int|
                i < j ==> !#[trigger] occurs_at(s, pattern, j),
            None => !contains_text(s, pattern),
        }),
    decreases s.len(),
{
    if !ends_with(s, pattern) && s.len() > 0 {
        let shorter = s.drop_last();
        lemma_find_last(shorter, pattern);
        assert forall|j: int| #[trigger] occurs_at(s, pattern, j) implies occurs_at(
            shorter,
            pattern,
            j,
        ) by {
            assert(j != s.len() - pattern.len());
            assert(shorter.subrange(j, j + pattern.len()) =~= s.subrange(j, j + pattern.len()));
        }
        if let Some(i) = find_last(shorter, pattern) {
            assert(shorter.subrange(i, i + pattern.len()) =~= s.subrange(i, i + pattern.len()));
        }
    } else if !ends_with(s, pattern) {
        assert forall|j: int| !#[trigger] occurs_at(s, pattern, j) by {
            if occurs_at(s, pattern, j) {
                assert(j == 0 && pattern.len() == 0);
            }
        }
    }
}

/// The parts of a text, put together again, make it up.
pub proof fn lemma_join_split(s: Seq<char>, c: char)
    ensures
        join(split(s, c), c) == s,
    decreases s.len(),
{
    if s.len() > 0 {
        let parts = split(s.drop_last(), c);
        lemma_split(s.drop_last(), c);
        lemma_join_split(s.drop_last(), c);
        if s.last() == c {
            let longer = parts.push(Seq::empty());
            assert(longer.drop_last() =~= parts);
            assert(join(longer, c) =~= s);
        } else {
            let longer = parts.drop_last().push(parts.last().push(s.last()));
            assert(longer.drop_last() =~= parts.drop_last());
            assert(s =~= s.drop_last().push(s.last()));
            if parts.len() == 1 {
                assert(join(parts, c) == parts[0]);
                assert(join(longer, c) == longer[0]);
            } else {
                let start = join(parts.drop_last(), c).push(c);
                assert(join(longer, c) == start + parts.last().push(s.last()));
                assert(join(longer, c) =~= (start + parts.last()).push(s.last()));
            }
        }
    } else {
        assert(join(split(s, c), c) =~= s);
    }
}

/// White space around a text that neither begins nor ends with any is all that trimming takes away.
pub proof fn lemma_trim_inner(start: Seq<char>, inner: Seq<char>, end: Seq<char>)
    requires
        is_blank(start),
        is_blank(end),
        inner.len() > 0,
        !is_whitespace(inner[0]),
        !is_whitespace(inner.last()),
    ensures
        trim(start + inner + end) == inner,
{
    lemma_skip_blank(start, inner + end);
    assert(start + inner + end =~= start + (inner + end));
    assert((inner + end)[0] == inner[0]);
    lemma_drop_blank(inner, end);
}

proof fn lemma_skip_blank(start: Seq<char>, rest: Seq<char>)
    requires
        is_blank(start),
    ensures
        trim_start(start + rest) == trim_start(rest),
    decreases start.len(),
{
    if start.len() > 0 {
        assert(is_whitespace(start[0]));
        assert((start + rest).drop_first() =~= start.drop_first() + rest);
        assert(is_blank(start.drop_first())) by {
            assert forall|i: int| 0 <= i < start.drop_first().len() implies is_whitespace(
                #[trigger] start.drop_first()[i],
            ) by {
                assert(is_whitespace(start[i + 1]));
            }
        }
        lemma_skip_blank(start.drop_first(), rest);
    } else {
        assert(start + rest =~= rest);
    }
}

proof fn lemma_drop_blank(s: Seq<char>, end: Seq<char>)
    requires
        is_blank(end),
    ensures
        trim_end(s + end) == trim_end(s),
    decreases end.len(),
{
    if end.len() > 0 {
        assert(is_whitespace(end[end.len() - 1]));
        assert((s + end).drop_last() =~= s + end.drop_last());
        assert(is_blank(end.drop_last())) by {
            assert forall|i: int| 0 <= i < end.drop_last().len() implies is_whitespace(
                #[trigger] end.drop_last()[i],
            ) by {
                assert(is_whitespace(end[i]));
            }
        }
        lemma_drop_blank(s, end.drop_last());
    } else {
        assert(s + end =~= s);
    }
}

/// What stands for a number is made of digits.
pub proof fn lemma_digits_value(s: Seq<char>, i: int)
    requires
        digits_value(s) is Some,
        0 <= i < s.len(),
    ensures
        '0' <= s[i] <= '9',
    decreases s.len(),
{
    if i < s.len() - 1 {
        lemma_digits_value(s.drop_last(), i);
        assert(s.drop_last()[i] == s[i]);
    }
}

/// Trimming leaves nothing exactly of what is blank.
pub proof fn lemma_trim_blank(s: Seq<char>)
    ensures
        trim(s).len() == 0 <==> is_blank(s),
{
    lemma_trim(s);
    let inner = trim(s);
    let (start, end) = choose|start: Seq<char>, end: Seq<char>|
        is_blank(start) && is_blank(end) && s == #[trigger] (start + inner + end);
    if inner.len() > 0 {
        assert(s[start.len() as int] == inner[0]);
    } else {
        assert forall|i: int| 0 <= i < s.len() implies is_whitespace(#[trigger] s[i]) by {
            if i < start.len() {
                assert(s[i] == start[i]);
            } else {
                assert(s[i] == end[i - start.len()]);
            }
        }
    }
}

/// Trimming the end of a text leaves nothing of what is blank, and else a text that does not end with
/// white space.
pub proof fn lemma_trimmed_end(s: Seq<char>)
    ensures
        trim_end(s).len() == 0 <==> is_blank(s),
        trim_end(s).len() > 0 ==> !is_whitespace(trim_end(s).last()),
        trim_end(s).is_prefix_of(s),
{
    let end = lemma_trim_end(s);
    assert(s.take(trim_end(s).len() as int) =~= trim_end(s));
    if trim_end(s).len() == 0 {
        assert(s =~= end);
    } else {
        let n = trim_end(s).len() as int;
        assert(s[n - 1] == trim_end(s)[n - 1]);
    }
}

/// White space is the tab, the line ends, the space and the other characters that leave a gap, by their
/// numbers; nothing else is.
pub proof fn lemma_white_space(c: char)
    ensures
        is_whitespace(c) <==> {
            let n = c as u32;
            n == 0x20 || 0x09 <= n <= 0x0d || n == 0x85 || n == 0xa0 || n == 0x1680 || 0x2000 <= n
                <= 0x200a || n == 0x2028 || n == 0x2029 || n == 0x202f || n == 0x205f || n == 0x3000
        },
        0x21 <= c as u32 <= 0x7e ==> !is_whitespace(c),
{
}

} // verus!
