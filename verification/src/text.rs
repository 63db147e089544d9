//! Strings as sequences of characters: comparison, affixes, search, decimals.
use vstd::prelude::*;

verus! {

/// `String::push` appends one character at the end of the string.
pub assume_specification[ String::push ](s: &mut String, c: char)
    ensures
        final(s)@ == old(s)@.push(c),
;

/// The characters of a string, in order.
pub fn chars_of(s: &str) -> (r: Vec<char>)
    ensures
        r@ == s@,
{
    let mut out: Vec<char> = Vec::new();
    for c in it: s.chars()
        invariant
            out@ == s@.take(it.index() as int),
            it.seq() == s@,
    {
        out.push(c);
    }
    out
}

/// The string made of the given characters.
pub fn text_of(chars: &Vec<char>) -> (r: String)
    ensures
        r@ == chars@,
{
    text_between(chars, 0, chars.len())
}

/// The string made of the characters at `from..to`.
pub fn text_between(chars: &Vec<char>, from: usize, to: usize) -> (r: String)
    requires
        from <= to <= chars@.len(),
    ensures
        r@ == chars@.subrange(from as int, to as int),
{
    let mut out = String::new();
    let mut i: usize = from;
    while i < to
        invariant
            from <= i <= to <= chars@.len(),
            out@ == chars@.subrange(from as int, i as int),
        decreases to - i,
    {
        out.push(chars[i]);
        i = i + 1;
        assert(chars@.subrange(from as int, i as int) =~= chars@.subrange(from as int, i - 1).push(
            chars@[i - 1],
        ));
    }
    out
}

/// Whether two strings hold the same characters.
pub fn str_eq(a: &str, b: &str) -> (r: bool)
    ensures
        r == (a@ == b@),
{
    let x = chars_of(a);
    let y = chars_of(b);
    chars_eq(&x, &y)
}

/// Whether two character lists are equal.
pub fn chars_eq(x: &Vec<char>, y: &Vec<char>) -> (r: bool)
    ensures
        r == (x@ == y@),
{
    if x.len() != y.len() {
        return false;
    }
    let mut i: usize = 0;
    while i < x.len()
        invariant
            x@.len() == y@.len(),
            i <= x@.len(),
            forall|j: int| 0 <= j < i ==> x@[j] == y@[j],
        decreases x.len() - i,
    {
        if x[i] != y[i] {
            return false;
        }
        i = i + 1;
    }
    assert(x@ =~= y@);
    true
}

/// The order of strings: at the first character in which two strings differ the
/// smaller one comes first, and a proper prefix comes before what extends it.
pub open spec fn precedes(a: Seq<char>, b: Seq<char>) -> bool {
    exists|k: int| differ_at(a, b, k)
}

/// `a` and `b` agree before position `k`, and `a` is the smaller one there.
pub open spec fn differ_at(a: Seq<char>, b: Seq<char>, k: int) -> bool {
    &&& 0 <= k < b.len()
    &&& k <= a.len()
    &&& forall|j: int| 0 <= j < k ==> a[j] == b[j]
    &&& k < a.len() ==> a[k] < b[k]
}

/// No string comes before itself.
pub proof fn precedes_irreflexive(a: Seq<char>)
    ensures
        !precedes(a, a),
{
}

/// Of two different strings one comes first.
pub proof fn precedes_total(a: Seq<char>, b: Seq<char>)
    ensures
        a == b || precedes(a, b) || precedes(b, a),
{
    let k = first_difference(a, b);
    first_difference_is_first(a, b, 0);
    if a.len() == b.len() && k == a.len() {
        assert(a =~= b);
    } else if k < b.len() && (k == a.len() || a[k] < b[k]) {
        assert(differ_at(a, b, k));
    } else {
        assert(differ_at(b, a, k));
    }
}

spec fn first_difference(a: Seq<char>, b: Seq<char>) -> int {
    difference_from(a, b, 0)
}

spec fn difference_from(a: Seq<char>, b: Seq<char>, i: int) -> int
    decreases a.len() - i,
{
    if i >= a.len() || i >= b.len() || a[i] != b[i] {
        i
    } else {
        difference_from(a, b, i + 1)
    }
}

proof fn first_difference_is_first(a: Seq<char>, b: Seq<char>, i: int)
    requires
        0 <= i <= a.len(),
        i <= b.len(),
        forall|j: int| 0 <= j < i ==> a[j] == b[j],
    ensures
        ({
            let k = difference_from(a, b, i);
            &&& i <= k <= a.len()
            &&& k <= b.len()
            &&& forall|j: int| 0 <= j < k ==> a[j] == b[j]
            &&& k < a.len() && k < b.len() ==> a[k] != b[k]
        }),
    decreases a.len() - i,
{
    if i < a.len() && i < b.len() && a[i] == b[i] {
        first_difference_is_first(a, b, i + 1);
    }
}

/// The order of strings is transitive.
pub proof fn precedes_transitive(a: Seq<char>, b: Seq<char>, c: Seq<char>)
    requires
        precedes(a, b),
        precedes(b, c),
    ensures
        precedes(a, c),
{
    let k = choose|k: int| differ_at(a, b, k);
    let m = choose|m: int| differ_at(b, c, m);
    let n = if k < m { k } else { m };
    assert(differ_at(a, c, n));
}

/// Two strings do not each come before the other.
pub proof fn precedes_asymmetric(a: Seq<char>, b: Seq<char>)
    requires
        precedes(a, b),
    ensures
        !precedes(b, a),
        a != b,
{
    if precedes(b, a) {
        precedes_transitive(a, b, a);
    }
    precedes_irreflexive(a);
}

/// Whether `a` comes before `b`.
pub fn str_precedes(a: &str, b: &str) -> (r: bool)
    ensures
        r == precedes(a@, b@),
{
    let x = chars_of(a);
    let y = chars_of(b);
    let mut i: usize = 0;
    while i < x.len() && i < y.len() && x[i] == y[i]
        invariant
            x@ == a@,
            y@ == b@,
            i <= x@.len(),
            i <= y@.len(),
            forall|j: int| 0 <= j < i ==> x@[j] == y@[j],
        decreases x.len() - i,
    {
        i = i + 1;
    }
    if i < y.len() && (i == x.len() || x[i] < y[i]) {
        assert(differ_at(a@, b@, i as int));
        true
    } else {
        proof {
            if precedes(a@, b@) {
                let k = choose|k: int| differ_at(a@, b@, k);
                assert(k >= i);
            }
        }
        false
    }
}

/// Whether `part` ends `whole`.
pub open spec fn ends_with(whole: Seq<char>, part: Seq<char>) -> bool {
    part.len() <= whole.len() && whole.subrange(whole.len() - part.len(), whole.len() as int) == part
}

/// Whether `part` begins `whole`.
pub open spec fn begins_with(whole: Seq<char>, part: Seq<char>) -> bool {
    part.len() <= whole.len() && whole.subrange(0, part.len() as int) == part
}

/// Whether `part` occurs in `whole`.
pub open spec fn occurs_in(whole: Seq<char>, part: Seq<char>) -> bool {
    exists|i: int| occurs_at(whole, part, i)
}

/// Whether `part` occurs in `whole` at position `i`.
pub open spec fn occurs_at(whole: Seq<char>, part: Seq<char>, i: int) -> bool {
    0 <= i && i + part.len() <= whole.len() && whole.subrange(i, i + part.len()) == part
}

/// Whether `part` stands in `whole` at position `at`.
pub fn chars_at(whole: &Vec<char>, part: &Vec<char>, at: usize) -> (r: bool)
    ensures
        r == occurs_at(whole@, part@, at as int),
{
    if at > whole.len() || part.len() > whole.len() - at {
        return false;
    }
    let n: usize = whole.len();
    let mut i: usize = 0;
    while i < part.len()
        invariant
            i <= part@.len(),
            at + part@.len() <= whole@.len() == n,
            forall|j: int| 0 <= j < i ==> whole@[at + j] == part@[j],
        decreases part.len() - i,
    {
        if whole[at + i] != part[i] {
            assert(whole@.subrange(at as int, at + part@.len())[i as int] != part@[i as int]);
            return false;
        }
        i = i + 1;
    }
    assert(whole@.subrange(at as int, at + part@.len()) =~= part@);
    true
}

/// Whether `s` begins with `prefix`.
pub fn starts_with(s: &str, prefix: &str) -> (r: bool)
    ensures
        r == begins_with(s@, prefix@),
{
    let whole = chars_of(s);
    let part = chars_of(prefix);
    chars_at(&whole, &part, 0)
}

/// `s` without the prefix, where it has it.
pub fn strip_prefix(s: &str, prefix: &str) -> (r: Option<String>)
    ensures
        r is Some <==> begins_with(s@, prefix@),
        r matches Some(t) ==> t@ == s@.skip(prefix@.len() as int),
{
    let whole = chars_of(s);
    let part = chars_of(prefix);
    if chars_at(&whole, &part, 0) {
        let t = text_between(&whole, part.len(), whole.len());
        assert(t@ =~= s@.skip(prefix@.len() as int));
        Some(t)
    } else {
        None
    }
}

/// `s` without the suffix, where it has it.
pub fn strip_suffix(s: &str, suffix: &str) -> (r: Option<String>)
    ensures
        r is Some <==> ends_with(s@, suffix@),
        r matches Some(t) ==> t@ + suffix@ == s@,
{
    let whole = chars_of(s);
    let part = chars_of(suffix);
    if part.len() > whole.len() {
        return None;
    }
    let cut: usize = whole.len() - part.len();
    if chars_at(&whole, &part, cut) {
        let t = text_between(&whole, 0, cut);
        assert(t@ + part@ =~= whole@) by {
            assert forall|i: int| 0 <= i < whole@.len() implies (t@ + part@)[i] == whole@[i] by {
                if i >= cut {
                    assert(part@[i - cut] == whole@.subrange(cut as int, whole@.len() as int)[i
                        - cut]);
                }
            }
        }
        Some(t)
    } else {
        None
    }
}

/// Whether `part` occurs in `s`.
pub fn contains(s: &str, part: &str) -> (r: bool)
    ensures
        r == occurs_in(s@, part@),
{
    let whole = chars_of(s);
    let piece = chars_of(part);
    let mut i: usize = 0;
    while i < whole.len()
        invariant
            whole@ == s@,
            piece@ == part@,
            i <= whole@.len(),
            forall|j: int| 0 <= j < i ==> !occurs_at(s@, part@, j),
        decreases whole.len() - i,
    {
        if chars_at(&whole, &piece, i) {
            return true;
        }
        i = i + 1;
    }
    chars_at(&whole, &piece, i)
}

/// Whether a string is one of a list.
pub fn in_list(list: &Vec<String>, s: &str) -> (r: bool)
    ensures
        r == listed(list@, s@),
{
    let mut i: usize = 0;
    while i < list.len()
        invariant
            i <= list@.len(),
            forall|j: int| 0 <= j < i ==> list@[j]@ != s@,
        decreases list.len() - i,
    {
        if str_eq(list[i].as_str(), s) {
            return true;
        }
        i = i + 1;
    }
    false
}

/// Whether some string of `list` reads `s`.
pub open spec fn listed(list: Seq<String>, s: Seq<char>) -> bool {
    exists|i: int| 0 <= i < list.len() && (#[trigger] list[i])@ == s
}

/// The decimal digits of a number, without leading zeros.
pub open spec fn decimal(n: nat) -> Seq<char>
    decreases n,
{
    if n < 10 {
        seq![digit_char(n)]
    } else {
        decimal(n / 10).push(digit_char(n % 10))
    }
}

/// The character of a decimal digit.
pub open spec fn digit_char(d: nat) -> char {
    (d + 48) as char
}

/// The decimal text of a number.
pub fn decimal_text(n: u64) -> (r: String)
    ensures
        r@ == decimal(n as nat),
    decreases n,
{
    let d: u8 = (n % 10) as u8;
    let c: char = (d + 48) as char;
    if n < 10 {
        let mut s = String::new();
        s.push(c);
        assert(s@ =~= seq![digit_char(n as nat)]);
        s
    } else {
        let mut s = decimal_text(n / 10);
        s.push(c);
        s
    }
}

/// `a` followed by `b`.
pub fn joined(a: &str, b: &str) -> (r: String)
    ensures
        r@ == a@ + b@,
{
    let mut s = a.to_owned();
    s.append(b);
    s
}

/// A copy of a string.
pub fn owned(s: &str) -> (r: String)
    ensures
        r@ == s@,
{
    s.to_owned()
}

/// The characters of each string of a list.
pub open spec fn texts(s: Seq<String>) -> Seq<Seq<char>> {
    Seq::new(s.len(), |i: int| s[i]@)
}

/// The texts of a list to which a string was added.
pub proof fn texts_push(s: Seq<String>, t: String)
    ensures
        texts(s.push(t)) == texts(s).push(t@),
{
    assert(texts(s.push(t)) =~= texts(s).push(t@));
}

/// Whether a text stands in a list of texts.
pub open spec fn among(list: Seq<Seq<char>>, s: Seq<char>) -> bool {
    exists|i: int| 0 <= i < list.len() && #[trigger] list[i] == s
}

/// A string stands in a list where its text stands among the texts.
pub proof fn listed_is_among(list: Seq<String>, s: Seq<char>)
    ensures
        listed(list, s) == among(texts(list), s),
{
    if listed(list, s) {
        let i = choose|i: int| 0 <= i < list.len() && (#[trigger] list[i])@ == s;
        assert(texts(list)[i] == s);
    }
    if among(texts(list), s) {
        let i = choose|i: int| 0 <= i < texts(list).len() && #[trigger] texts(list)[i] == s;
        assert(list[i]@ == s);
    }
}

/// Another copy of a list of strings.
pub fn copied(list: &Vec<String>) -> (r: Vec<String>)
    ensures
        texts(r@) == texts(list@),
{
    let mut out: Vec<String> = Vec::new();
    let mut i: usize = 0;
    while i < list.len()
        invariant
            i <= list@.len(),
            texts(out@) == texts(list@).take(i as int),
        decreases list.len() - i,
    {
        let ghost before = out@;
        out.push(owned(list[i].as_str()));
        proof {
            texts_push(before, out@.last());
            assert(texts(list@).take(i + 1) =~= texts(list@).take(i as int).push(list@[i as int]@));
        }
        i = i + 1;
    }
    assert(texts(list@).take(list@.len() as int) =~= texts(list@));
    out
}

/// Whether the texts of a list ascend strictly.
pub open spec fn texts_ascend(s: Seq<Seq<char>>) -> bool {
    forall|i: int, j: int| 0 <= i < j < s.len() ==> precedes(#[trigger] s[i], #[trigger] s[j])
}

/// Ascending lists of the same texts are the same list.
pub proof fn ascending_texts_are_unique(a: Seq<Seq<char>>, b: Seq<Seq<char>>)
    requires
        texts_ascend(a),
        texts_ascend(b),
        forall|k: Seq<char>| among(a, k) == among(b, k),
    ensures
        a == b,
    decreases a.len(),
{
    if a.len() == 0 {
        if b.len() > 0 {
            assert(among(b, b[0]));
        }
        assert(a =~= b);
    } else if b.len() == 0 {
        assert(among(a, a[0]));
    } else {
        let x = a.len() - 1;
        let y = b.len() - 1;
        assert(among(a, a[x]) && among(b, b[y]));
        let p = choose|p: int| 0 <= p < b.len() && #[trigger] b[p] == a[x];
        let q = choose|q: int| 0 <= q < a.len() && #[trigger] a[q] == b[y];
        if p < y && q < x {
            assert(precedes(b[p], b[y]));
            assert(precedes(a[q], a[x]));
            precedes_asymmetric(a[x], b[y]);
        }
        assert(a[x] == b[y]);
        let s = a.drop_last();
        let t = b.drop_last();
        assert forall|k: Seq<char>| among(s, k) == among(t, k) by {
            if among(s, k) {
                let i = choose|i: int| 0 <= i < s.len() && #[trigger] s[i] == k;
                assert(a[i] == k);
                precedes_asymmetric(a[i], a[x]);
                assert(among(b, k));
                let j = choose|j: int| 0 <= j < b.len() && #[trigger] b[j] == k;
                assert(t[j] == k);
            }
            if among(t, k) {
                let i = choose|i: int| 0 <= i < t.len() && #[trigger] t[i] == k;
                assert(b[i] == k);
                precedes_asymmetric(b[i], b[y]);
                assert(among(a, k));
                let j = choose|j: int| 0 <= j < a.len() && #[trigger] a[j] == k;
                assert(s[j] == k);
            }
        }
        ascending_texts_are_unique(s, t);
        assert(a =~= s.push(a[x]));
        assert(b =~= t.push(b[y]));
    }
}

/// What stands in a list to which a string was added.
pub proof fn listed_push(list: Seq<String>, s: String)
    ensures
        forall|k: Seq<char>| #[trigger] listed(list.push(s), k) <==> listed(list, k) || k == s@,
{
    let more = list.push(s);
    assert forall|k: Seq<char>| #[trigger] listed(more, k) <==> listed(list, k) || k == s@ by {
        if listed(list, k) {
            let i = choose|i: int| 0 <= i < list.len() && (#[trigger] list[i])@ == k;
            assert(more[i]@ == k);
        }
        if listed(more, k) && k != s@ {
            let i = choose|i: int| 0 <= i < more.len() && (#[trigger] more[i])@ == k;
            assert(list[i]@ == k);
        }
        assert(more[list.len() as int]@ == s@);
    }
}

/// Whether a character is white space: has the property `White_Space` of Unicode.
pub open spec fn white_space(c: char) -> bool {
    let n = c as u32;
    ||| 0x9 <= n <= 0xd
    ||| n == 0x20
    ||| n == 0x85
    ||| n == 0xa0
    ||| n == 0x1680
    ||| 0x2000 <= n <= 0x200a
    ||| n == 0x2028
    ||| n == 0x2029
    ||| n == 0x202f
    ||| n == 0x205f
    ||| n == 0x3000
}

/// `char::is_whitespace`. Claimed: it tells the characters with the property
/// `White_Space` of Unicode, which are those of [`white_space`].
pub assume_specification[ char::is_whitespace ](c: char) -> (r: bool)
    ensures
        r == white_space(c),
;

/// Whether a character is an ASCII letter or an ASCII digit.
pub open spec fn ascii_alphanumeric(c: char) -> bool {
    ('a' <= c && c <= 'z') || ('A' <= c && c <= 'Z') || ('0' <= c && c <= '9')
}

/// Whether a character beyond ASCII is a letter or a digit in the sense of Unicode.
pub uninterp spec fn wide_alphanumeric(c: char) -> bool;

/// Whether a character is a letter or a digit in the sense of Unicode.
pub open spec fn alphanumeric(c: char) -> bool {
    if (c as u32) < 0x80 {
        ascii_alphanumeric(c)
    } else {
        wide_alphanumeric(c)
    }
}

/// `char::is_alphanumeric`. Claimed: of the ASCII characters it tells the letters and
/// the digits; of the others it is a function of the character alone.
pub assume_specification[ char::is_alphanumeric ](c: char) -> (r: bool)
    ensures
        (c as u32) < 0x80 ==> r == ascii_alphanumeric(c),
        (c as u32) >= 0x80 ==> r == wide_alphanumeric(c),
;

/// A text without the white space before it.
pub open spec fn trimmed_start(s: Seq<char>) -> Seq<char>
    decreases s.len(),
{
    if s.len() > 0 && white_space(s[0]) {
        trimmed_start(s.skip(1))
    } else {
        s
    }
}

/// A text without the white space behind it.
pub open spec fn trimmed_end(s: Seq<char>) -> Seq<char>
    decreases s.len(),
{
    if s.len() > 0 && white_space(s.last()) {
        trimmed_end(s.drop_last())
    } else {
        s
    }
}

/// A text without the white space around it.
pub open spec fn trimmed(s: Seq<char>) -> Seq<char> {
    trimmed_end(trimmed_start(s))
}

/// A string without the white space around it.
pub fn trim(s: &str) -> (r: String)
    ensures
        r@ == trimmed(s@),
{
    let chars = chars_of(s);
    let mut from: usize = 0;
    assert(chars@.skip(0) =~= chars@);
    while from < chars.len() && chars[from].is_whitespace()
        invariant
            from <= chars@.len(),
            trimmed_start(chars@) == trimmed_start(chars@.skip(from as int)),
        decreases chars.len() - from,
    {
        proof {
            assert(chars@.skip(from as int).skip(1) =~= chars@.skip(from + 1));
        }
        from = from + 1;
    }
    let mut to: usize = chars.len();
    let ghost rest = chars@.skip(from as int);
    proof {
        assert(trimmed_start(rest) == rest);
        assert(rest =~= chars@.subrange(from as int, to as int));
    }
    while to > from && chars[to - 1].is_whitespace()
        invariant
            from <= to <= chars@.len(),
            trimmed_end(rest) == trimmed_end(chars@.subrange(from as int, to as int)),
        decreases to - from,
    {
        proof {
            assert(chars@.subrange(from as int, to as int).drop_last() =~= chars@.subrange(
                from as int,
                to - 1,
            ));
        }
        to = to - 1;
    }
    text_between(&chars, from, to)
}

} // verus!
