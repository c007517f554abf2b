//! Text as sequences of characters: trimming, searching, splitting, case and decimal numbers.
use vstd::prelude::*;
use vstd::string::*;
use vstd::utf8::*;

verus! {

/// `std::string::String::push` appends one character.
pub assume_specification[ String::push ](s: &mut String, c: char)
    ensures
        final(s)@ == old(s)@.push(c),
;

/// The characters with the Unicode `White_Space` property.
pub open spec fn is_white_space(c: char) -> bool {
    ||| '\u{9}' <= c <= '\u{d}'
    ||| c == ' '
    ||| c == '\u{85}'
    ||| c == '\u{a0}'
    ||| c == '\u{1680}'
    ||| '\u{2000}' <= c <= '\u{200a}'
    ||| c == '\u{2028}'
    ||| c == '\u{2029}'
    ||| c == '\u{202f}'
    ||| c == '\u{205f}'
    ||| c == '\u{3000}'
}

/// `char::is_whitespace` tests for the Unicode `White_Space` property.
pub assume_specification[ char::is_whitespace ](c: char) -> (r: bool)
    ensures
        r == is_white_space(c),
;

/// The characters of the Unicode general category `Cc`.
pub open spec fn is_control_code(c: char) -> bool {
    c <= '\u{1f}' || '\u{7f}' <= c <= '\u{9f}'
}

/// `char::is_control` tests for the Unicode general category `Cc`.
pub assume_specification[ char::is_control ](c: char) -> (r: bool)
    ensures
        r == is_control_code(c),
;

/// The characters of an optional text that is borrowed.
pub open spec fn optional_view(t: Option<&str>) -> Option<Seq<char>> {
    match t {
        Some(t) => Some(t@),
        None => None,
    }
}

/// The characters of an optional text.
pub open spec fn optional_text(t: Option<String>) -> Option<Seq<char>> {
    match t {
        Some(t) => Some(t@),
        None => None,
    }
}

/// Borrows an optional text.
pub fn optional_str(t: &Option<String>) -> (r: Option<&str>)
    ensures
        optional_view(r) == optional_text(*t),
        r is Some == t is Some,
        r matches Some(s) ==> s@ == t->0@,
{
    match t {
        Some(t) => Some(t.as_str()),
        None => None,
    }
}

/// The characters of a text, one element each.
pub fn chars_of(s: &str) -> (v: Vec<char>)
    ensures
        v@ == s@,
{
    let mut v: Vec<char> = Vec::new();
    for c in it: s.chars()
        invariant
            v@ == it.seq().take(it.index() as int),
            it.seq() == s@,
    {
        v.push(c);
    }
    v
}

/// The text made of the given characters.
pub fn text_of(v: &[char]) -> (s: String)
    ensures
        s@ == v@,
{
    let mut s = String::new();
    let mut i: usize = 0;
    while i < v.len()
        invariant
            i <= v@.len(),
            s@ == v@.take(i as int),
        decreases v@.len() - i,
    {
        s.push(v[i]);
        i = i + 1;
    }
    s
}

/// Whether two texts hold the same characters.
pub fn same_text(a: &str, b: &str) -> (r: bool)
    ensures
        r == (a@ == b@),
{
    let x = a.as_bytes();
    let y = b.as_bytes();
    proof {
        encode_utf8_decode_utf8(a@);
        encode_utf8_decode_utf8(b@);
    }
    if x.len() != y.len() {
        return false;
    }
    let mut i: usize = 0;
    while i < x.len()
        invariant
            i <= x@.len(),
            x@.len() == y@.len(),
            x@ == encode_utf8(a@),
            y@ == encode_utf8(b@),
            forall|j: int| 0 <= j < i ==> x@[j] == y@[j],
        decreases x@.len() - i,
    {
        if x[i] != y[i] {
            return false;
        }
        i = i + 1;
    }
    assert(x@ =~= y@);
    true
}


/// A set of characters that is trimmed off the ends of a text.
#[derive(Clone, Copy)]
pub enum CharClass {
    /// White space.
    White,
    /// One character.
    Only(char),
    /// The separators that a slug neither starts nor ends with.
    SlugEdge,
}

impl CharClass {
    /// Whether the class holds the character.
    pub open spec fn has(self, c: char) -> bool {
        match self {
            CharClass::White => is_white_space(c),
            CharClass::Only(only) => c == only,
            CharClass::SlugEdge => c == '-' || c == '.' || c == '_',
        }
    }

    /// Tests whether the class holds the character.
    pub fn holds(self, c: char) -> (r: bool)
        ensures
            r == self.has(c),
    {
        match self {
            CharClass::White => c.is_whitespace(),
            CharClass::Only(only) => c == only,
            CharClass::SlugEdge => c == '-' || c == '.' || c == '_',
        }
    }
}

/// The text without its leading characters of the class.
pub open spec fn trim_start(s: Seq<char>, class: CharClass) -> Seq<char>
    decreases s.len(),
{
    if s.len() > 0 && class.has(s[0]) {
        trim_start(s.drop_first(), class)
    } else {
        s
    }
}

/// The text without its trailing characters of the class.
pub open spec fn trim_end(s: Seq<char>, class: CharClass) -> Seq<char>
    decreases s.len(),
{
    if s.len() > 0 && class.has(s.last()) {
        trim_end(s.drop_last(), class)
    } else {
        s
    }
}

/// The text without its leading and trailing characters of the class.
pub open spec fn trim_both(s: Seq<char>, class: CharClass) -> Seq<char> {
    trim_end(trim_start(s, class), class)
}

/// The text without its leading and trailing white space.
pub open spec fn trim(s: Seq<char>) -> Seq<char> {
    trim_both(s, CharClass::White)
}

/// What is left after trimming the front does not begin with the class.
pub proof fn trim_start_edge(s: Seq<char>, class: CharClass)
    ensures
        trim_start(s, class).len() > 0 ==> !class.has(trim_start(s, class)[0]),
        trim_start(s, class).len() <= s.len(),
        trim_start(s, class) == s.skip(s.len() - trim_start(s, class).len()),
    decreases s.len(),
{
    if s.len() > 0 && class.has(s[0]) {
        trim_start_edge(s.drop_first(), class);
        let n = trim_start(s, class).len();
        assert(s.drop_first().skip(s.len() - 1 - n) =~= s.skip(s.len() - n));
    } else {
        assert(s.skip(0) =~= s);
    }
}

/// What is left after trimming the end does not end with the class.
pub proof fn trim_end_edge(s: Seq<char>, class: CharClass)
    ensures
        trim_end(s, class).len() > 0 ==> !class.has(trim_end(s, class).last()),
        trim_end(s, class).len() <= s.len(),
        trim_end(s, class) == s.take(trim_end(s, class).len() as int),
    decreases s.len(),
{
    if s.len() > 0 && class.has(s.last()) {
        trim_end_edge(s.drop_last(), class);
        let n = trim_end(s, class).len();
        assert(s.drop_last().take(n as int) =~= s.take(n as int));
    } else {
        assert(s.take(s.len() as int) =~= s);
    }
}

/// Where the text starts once its leading characters of the class are gone.
fn start_of(v: &[char], class: CharClass) -> (k: usize)
    ensures
        k <= v@.len(),
        trim_start(v@, class) == v@.skip(k as int),
{
    let mut k: usize = 0;
    assert(v@.skip(0) =~= v@);
    while k < v.len() && class.holds(v[k])
        invariant
            k <= v@.len(),
            trim_start(v@, class) == trim_start(v@.skip(k as int), class),
        decreases v@.len() - k,
    {
        assert(v@.skip(k as int).drop_first() =~= v@.skip(k + 1));
        k = k + 1;
    }
    k
}

/// Where the text from `start` on ends once its trailing characters of the class are gone.
fn end_of(v: &[char], start: usize, class: CharClass) -> (k: usize)
    requires
        start <= v@.len(),
    ensures
        start <= k <= v@.len(),
        trim_end(v@.skip(start as int), class) == v@.subrange(start as int, k as int),
{
    let mut k: usize = v.len();
    assert(v@.skip(start as int) =~= v@.subrange(start as int, k as int));
    while start < k && class.holds(v[k - 1])
        invariant
            start <= k <= v@.len(),
            trim_end(v@.skip(start as int), class) == trim_end(
                v@.subrange(start as int, k as int),
                class,
            ),
        decreases k,
    {
        assert(v@.subrange(start as int, k as int).drop_last() =~= v@.subrange(
            start as int,
            k - 1,
        ));
        k = k - 1;
    }
    k
}

/// The characters from `from` up to `to` as a text.
pub fn text_between(v: &[char], from: usize, to: usize) -> (s: String)
    requires
        from <= to <= v@.len(),
    ensures
        s@ == v@.subrange(from as int, to as int),
{
    let mut s = String::new();
    let mut i: usize = from;
    while i < to
        invariant
            from <= i <= to <= v@.len(),
            s@ == v@.subrange(from as int, i as int),
        decreases to - i,
    {
        s.push(v[i]);
        i = i + 1;
    }
    s
}

/// Drops the leading characters of the class.
pub fn without_prefix_of(s: &str, class: CharClass) -> (r: String)
    ensures
        r@ == trim_start(s@, class),
{
    let v = chars_of(s);
    let k: usize = start_of(&v, class);
    assert(v@.skip(k as int) =~= v@.subrange(k as int, v@.len() as int));
    text_between(&v, k, v.len())
}

/// Drops the trailing characters of the class.
pub fn without_suffix_of(s: &str, class: CharClass) -> (r: String)
    ensures
        r@ == trim_end(s@, class),
{
    let v = chars_of(s);
    let k: usize = end_of(&v, 0, class);
    assert(v@.skip(0) =~= v@);
    text_between(&v, 0, k)
}

/// Drops the leading and the trailing characters of the class.
pub fn without_edges_of(s: &str, class: CharClass) -> (r: String)
    ensures
        r@ == trim_both(s@, class),
{
    let v = chars_of(s);
    let from: usize = start_of(&v, class);
    let to: usize = end_of(&v, from, class);
    text_between(&v, from, to)
}

/// Drops the leading and the trailing white space.
pub fn trimmed(s: &str) -> (r: String)
    ensures
        r@ == trim(s@),
{
    without_edges_of(s, CharClass::White)
}

/// Whether the text is empty or white space alone.
pub fn is_blank(s: &str) -> (r: bool)
    ensures
        r == (trim(s@).len() == 0),
{
    trimmed(s).as_str().is_empty()
}

/// Whether `p` stands in `s` at position `i`.
pub open spec fn occurs_at(s: Seq<char>, p: Seq<char>, i: int) -> bool {
    0 <= i && i + p.len() <= s.len() && s.subrange(i, i + p.len()) == p
}

/// Whether `p` stands anywhere in `s`.
pub open spec fn contains(s: Seq<char>, p: Seq<char>) -> bool {
    exists|i: int| occurs_at(s, p, i)
}

/// Whether `s` begins with `p`.
pub open spec fn starts_with(s: Seq<char>, p: Seq<char>) -> bool {
    occurs_at(s, p, 0)
}

/// Whether `at` is the first position, not before `from`, at which `p` stands in `s`.
pub open spec fn first_from(s: Seq<char>, p: Seq<char>, from: int, at: int) -> bool {
    &&& from <= at
    &&& occurs_at(s, p, at)
    &&& forall|j: int| from <= j < at ==> !occurs_at(s, p, j)
}

/// Tests whether `p` stands in `v` at position `i`.
pub fn matches_at(v: &[char], p: &[char], i: usize) -> (r: bool)
    ensures
        r == occurs_at(v@, p@, i as int),
{
    if i > v.len() || p.len() > v.len() - i {
        return false;
    }
    let mut k: usize = 0;
    while k < p.len()
        invariant
            k <= p@.len(),
            i + p@.len() <= v@.len() <= usize::MAX,
            forall|j: int| 0 <= j < k ==> v@[i + j] == p@[j],
        decreases p@.len() - k,
    {
        if v[i + k] != p[k] {
            assert(v@.subrange(i as int, i + p@.len())[k as int] != p@[k as int]);
            return false;
        }
        k = k + 1;
    }
    assert(v@.subrange(i as int, i + p@.len()) =~= p@);
    true
}

/// Finds the first position, not before `from`, at which `p` stands in `v`.
pub fn find_from(v: &[char], p: &[char], from: usize) -> (r: Option<usize>)
    ensures
        match r {
            Some(at) => first_from(v@, p@, from as int, at as int),
            None => forall|j: int| from <= j ==> !occurs_at(v@, p@, j),
        },
{
    let mut i: usize = from;
    while i <= v.len() && p.len() <= v.len() - i
        invariant
            from <= i,
            forall|j: int| from <= j < i ==> !occurs_at(v@, p@, j),
        decreases v@.len() + 1 - i,
    {
        if matches_at(v, p, i) {
            return Some(i);
        }
        if i == v.len() {
            return None;
        }
        i = i + 1;
    }
    None
}

/// Where `p` first stands in `s`, from `from` on.
pub open spec fn find(s: Seq<char>, p: Seq<char>, from: int) -> Option<int>
    decreases s.len() + 1 - from,
{
    if from < 0 || from + p.len() > s.len() {
        None
    } else if occurs_at(s, p, from) {
        Some(from)
    } else {
        find(s, p, from + 1)
    }
}

/// The first place is found.
pub proof fn lemma_found(s: Seq<char>, p: Seq<char>, from: int, at: int)
    requires
        0 <= from,
        p.len() > 0,
        first_from(s, p, from, at),
    ensures
        find(s, p, from) == Some(at),
        at + p.len() <= s.len(),
    decreases at - from,
{
    if from < at {
        assert(!occurs_at(s, p, from));
        lemma_found(s, p, from + 1, at);
    }
}

/// Nothing is found where there is nothing.
pub proof fn lemma_not_found(s: Seq<char>, p: Seq<char>, from: int)
    requires
        0 <= from,
        p.len() > 0,
        forall|j: int| from <= j ==> !occurs_at(s, p, j),
    ensures
        find(s, p, from) is None,
    decreases s.len() - from,
{
    if from + p.len() <= s.len() {
        assert(!occurs_at(s, p, from));
        lemma_not_found(s, p, from + 1);
    }
}

/// What is found lies in the text.
pub proof fn lemma_find_bounds(s: Seq<char>, p: Seq<char>, from: int)
    ensures
        find(s, p, from) matches Some(at) ==> from <= at && at + p.len() <= s.len(),
    decreases s.len() + 1 - from,
{
    if !(from < 0 || from + p.len() > s.len()) && !occurs_at(s, p, from) {
        lemma_find_bounds(s, p, from + 1);
    }
}

/// Tests whether `p` stands anywhere in `s`.
pub fn contains_text(s: &str, p: &str) -> (r: bool)
    ensures
        r == contains(s@, p@),
{
    let v = chars_of(s);
    let q = chars_of(p);
    match find_from(&v, &q, 0) {
        Some(at) => {
            assert(occurs_at(s@, p@, at as int));
            true
        },
        None => {
            assert forall|i: int| !occurs_at(s@, p@, i) by {
                if 0 <= i {
                }
            }
            false
        },
    }
}

/// Tests whether `s` begins with `p`.
pub fn begins_with(s: &str, p: &str) -> (r: bool)
    ensures
        r == starts_with(s@, p@),
{
    let v = chars_of(s);
    let q = chars_of(p);
    matches_at(&v, &q, 0)
}

/// The text with every `from` replaced by `to`.
pub open spec fn replace(s: Seq<char>, from: char, to: char) -> Seq<char> {
    s.map_values(
        |c: char|
            if c == from {
                to
            } else {
                c
            },
    )
}

/// Replaces every `from` by `to`.
pub fn replaced(s: &str, from: char, to: char) -> (r: String)
    ensures
        r@ == replace(s@, from, to),
{
    let v = chars_of(s);
    let mut r = String::new();
    let mut i: usize = 0;
    while i < v.len()
        invariant
            i <= v@.len(),
            v@ == s@,
            r@ == replace(s@, from, to).take(i as int),
        decreases v@.len() - i,
    {
        if v[i] == from {
            r.push(to);
        } else {
            r.push(v[i]);
        }
        assert(r@ =~= replace(s@, from, to).take(i + 1));
        i = i + 1;
    }
    assert(replace(s@, from, to).take(v@.len() as int) =~= replace(s@, from, to));
    r
}

/// The character with an ASCII capital letter made small.
pub open spec fn ascii_lower_char(c: char) -> char {
    if 'A' <= c <= 'Z' {
        (c as u32 + 32) as char
    } else {
        c
    }
}

/// The text with its ASCII capital letters made small.
pub open spec fn ascii_lower(s: Seq<char>) -> Seq<char> {
    s.map_values(|c: char| ascii_lower_char(c))
}

/// Makes an ASCII capital letter small.
pub fn ascii_lowered_char(c: char) -> (r: char)
    ensures
        r == ascii_lower_char(c),
{
    if 'A' <= c && c <= 'Z' {
        (c as u8 + 32) as char
    } else {
        c
    }
}

/// Makes the ASCII capital letters small.
pub fn ascii_lowered(s: &str) -> (r: String)
    ensures
        r@ == ascii_lower(s@),
{
    let v = chars_of(s);
    let mut r = String::new();
    let mut i: usize = 0;
    while i < v.len()
        invariant
            i <= v@.len(),
            v@ == s@,
            r@ == ascii_lower(s@).take(i as int),
        decreases v@.len() - i,
    {
        r.push(ascii_lowered_char(v[i]));
        assert(r@ =~= ascii_lower(s@).take(i + 1));
        i = i + 1;
    }
    assert(ascii_lower(s@).take(v@.len() as int) =~= ascii_lower(s@));
    r
}

/// The Unicode lowercase equivalent of a text that is not ASCII.
pub uninterp spec fn lowercase(s: Seq<char>) -> Seq<char>;

/// A text in small letters.
pub open spec fn unicode_lower(s: Seq<char>) -> Seq<char> {
    if is_ascii_chars(s) {
        ascii_lower(s)
    } else {
        lowercase(s)
    }
}

/// `str::to_lowercase` maps a text to its Unicode lowercase equivalent, which is a function of
/// the text alone. In ASCII texts it makes the capital letters small and changes nothing else.
#[verifier::external_body]
pub(crate) fn unicode_lowered(s: &str) -> (r: String)
    ensures
        r@ == (if is_ascii_chars(s@) {
            ascii_lower(s@)
        } else {
            lowercase(s@)
        }),
{
    s.to_lowercase()
}

/// The texts between the separators, in order.
pub open spec fn split<T>(s: Seq<T>, sep: T) -> Seq<Seq<T>>
    decreases s.len(),
{
    if s.len() == 0 {
        seq![Seq::empty()]
    } else {
        let parts = split(s.drop_last(), sep);
        if s.last() == sep {
            parts.push(Seq::empty())
        } else {
            parts.drop_last().push(parts.last().push(s.last()))
        }
    }
}

/// The characters of each text of a list.
pub open spec fn views(texts: Seq<String>) -> Seq<Seq<char>> {
    texts.map_values(|t: String| t@)
}

/// A split has at least one part.
pub proof fn lemma_split_len<T>(s: Seq<T>, sep: T)
    ensures
        split(s, sep).len() >= 1,
    decreases s.len(),
{
    if s.len() > 0 {
        lemma_split_len(s.drop_last(), sep);
    }
}

/// Splits a text at every separator.
pub fn split_text(s: &str, sep: char) -> (parts: Vec<String>)
    ensures
        views(parts@) == split(s@, sep),
{
    let v = chars_of(s);
    let mut parts: Vec<String> = Vec::new();
    let mut part = String::new();
    let mut i: usize = 0;
    proof {
        assert(v@.take(0) =~= Seq::empty());
        assert(split(v@.take(0), sep) =~= views(parts@).push(part@));
    }
    while i < v.len()
        invariant
            i <= v@.len(),
            split(v@.take(i as int), sep) == views(parts@).push(part@),
        decreases v@.len() - i,
    {
        let ghost before = views(parts@);
        let ghost so_far = v@.take(i + 1);
        assert(so_far.drop_last() =~= v@.take(i as int));
        if v[i] == sep {
            parts.push(part);
            part = String::new();
            assert(views(parts@) =~= before.push(parts@.last()@));
        } else {
            part.push(v[i]);
            assert(before.push(part@.drop_last()).drop_last() =~= before);
        }
        i = i + 1;
    }
    assert(v@.take(v@.len() as int) =~= s@);
    let ghost before = views(parts@);
    parts.push(part);
    assert(views(parts@) =~= before.push(parts@.last()@));
    parts
}

/// The texts joined with a separator between each two.
pub open spec fn join<T>(parts: Seq<Seq<T>>, sep: T) -> Seq<T>
    decreases parts.len(),
{
    if parts.len() == 0 {
        Seq::empty()
    } else if parts.len() == 1 {
        parts[0]
    } else {
        join(parts.drop_last(), sep).push(sep) + parts.last()
    }
}

/// The decimal digit of a number below ten.
pub open spec fn digit(d: nat) -> char {
    (48 + d) as char
}

/// The decimal numeral of a number.
pub open spec fn decimal(n: nat) -> Seq<char>
    decreases n,
{
    if n < 10 {
        seq![digit(n)]
    } else {
        decimal(n / 10).push(digit(n % 10))
    }
}

/// Writes a number as a decimal numeral.
pub fn decimal_text(n: u64) -> (r: String)
    ensures
        r@ == decimal(n as nat),
    decreases n,
{
    if n < 10 {
        let mut r = String::new();
        r.push((48 + n as u8) as char);
        r
    } else {
        let mut r = decimal_text(n / 10);
        r.push((48 + (n % 10) as u8) as char);
        r
    }
}

/// Whether the character is a decimal digit.
pub open spec fn is_digit(c: char) -> bool {
    '0' <= c <= '9'
}

/// The number that a sequence of decimal digits stands for.
pub open spec fn digits_value(s: Seq<char>) -> nat
    decreases s.len(),
{
    if s.len() == 0 {
        0
    } else {
        digits_value(s.drop_last()) * 10 + (s.last() as u32 - 48) as nat
    }
}

/// The number that decimal digits stand for, where they are one or more and the number is no
/// more than the largest machine size.
pub open spec fn size_of_digits(digits: Seq<char>) -> Option<nat> {
    if digits.len() > 0 && (forall|i: int| 0 <= i < digits.len() ==> is_digit(digits[i]))
        && digits_value(digits) <= usize::MAX {
        Some(digits_value(digits))
    } else {
        None
    }
}

/// The number that a numeral stands for: decimal digits after an optional plus sign.
pub open spec fn parse_size(s: Seq<char>) -> Option<nat> {
    if s.len() > 0 && s[0] == '+' {
        size_of_digits(s.drop_first())
    } else {
        size_of_digits(s)
    }
}

/// A longer sequence of digits stands for no smaller a number.
proof fn lemma_digits_value_grows(s: Seq<char>, k: int)
    requires
        0 <= k <= s.len(),
        forall|i: int| 0 <= i < s.len() ==> is_digit(s[i]),
    ensures
        digits_value(s.take(k)) <= digits_value(s),
    decreases s.len(),
{
    if k == s.len() {
        assert(s.take(k) =~= s);
    } else {
        lemma_digits_value_grows(s.drop_last(), k);
        assert(s.drop_last().take(k) =~= s.take(k));
        assert(is_digit(s.last()));
    }
}

/// Reads a numeral.
pub fn parsed_size(s: &str) -> (r: Option<usize>)
    ensures
        match r {
            Some(n) => parse_size(s@) == Some(n as nat),
            None => parse_size(s@) is None,
        },
{
    let v = chars_of(s);
    let from: usize = if v.len() > 0 && v[0] == '+' {
        1
    } else {
        0
    };
    let ghost digits = v@.skip(from as int);
    proof {
        assert(digits =~= if s@.len() > 0 && s@[0] == '+' {
            s@.drop_first()
        } else {
            s@
        });
    }
    if from == v.len() {
        return None;
    }
    let mut i: usize = from;
    let mut n: usize = 0;
    assert(digits.take(0) =~= Seq::empty());
    while i < v.len()
        invariant
            from <= i <= v@.len(),
            from < v@.len(),
            digits == v@.skip(from as int),
            parse_size(s@) == size_of_digits(digits),
            forall|j: int| 0 <= j < i - from ==> is_digit(digits[j]),
            n as nat == digits_value(digits.take(i - from)),
        decreases v@.len() - i,
    {
        let c = v[i];
        assert(c == digits[i - from]);
        assert(digits.take(i - from + 1).drop_last() =~= digits.take(i - from));
        if !('0' <= c && c <= '9') {
            assert(!is_digit(digits[i - from]));
            return None;
        }
        let d: usize = (c as u32 - 48) as usize;
        let ghost next = digits_value(digits.take(i - from + 1));
        assert(next == n as nat * 10 + d as nat);
        if n > (usize::MAX - d) / 10 {
            proof {
                assert(next > usize::MAX) by (nonlinear_arith)
                    requires
                        next == n as nat * 10 + d as nat,
                        n > (usize::MAX - d) / 10,
                        d <= 9,
                ;
                if forall|i: int| 0 <= i < digits.len() ==> is_digit(digits[i]) {
                    lemma_digits_value_grows(digits, i - from + 1);
                }
            }
            return None;
        }
        n = n * 10 + d;
        i = i + 1;
    }
    assert(digits.take(v@.len() - from) =~= digits);
    Some(n)
}

/// Filtering goes element by element.
pub proof fn lemma_filter_push<T>(s: Seq<T>, x: T, keep: spec_fn(T) -> bool)
    ensures
        s.push(x).filter(keep) == (if keep(x) {
            s.filter(keep).push(x)
        } else {
            s.filter(keep)
        }),
{
    reveal(Seq::filter);
    assert(s.push(x).drop_last() =~= s);
}

/// The position of the first `c`; the length where there is none.
pub open spec fn first_index(s: Seq<char>, c: char) -> int
    decreases s.len(),
{
    if s.len() == 0 || s[0] == c {
        0
    } else {
        1 + first_index(s.drop_first(), c)
    }
}

/// The first position is within the text, and no `c` stands before it.
pub proof fn first_index_bounds(s: Seq<char>, c: char)
    ensures
        0 <= first_index(s, c) <= s.len(),
        first_index(s, c) < s.len() ==> s[first_index(s, c)] == c,
        forall|i: int| 0 <= i < first_index(s, c) ==> s[i] != c,
    decreases s.len(),
{
    if s.len() > 0 && s[0] != c {
        first_index_bounds(s.drop_first(), c);
        assert forall|i: int| 0 <= i < first_index(s, c) implies s[i] != c by {
            if i > 0 {
                assert(s.drop_first()[i - 1] == s[i]);
            }
        }
    }
}

/// The texts before and behind the first `c`; the whole and nothing where there is none.
pub open spec fn cut(s: Seq<char>, c: char) -> (Seq<char>, Seq<char>) {
    let i = first_index(s, c);
    if i < s.len() {
        (s.take(i), s.skip(i + 1))
    } else {
        (s, Seq::empty())
    }
}

/// Cuts a text at the first `c`.
pub fn cut_text(s: &str, c: char) -> (r: (String, String))
    ensures
        (r.0@, r.1@) == cut(s@, c),
{
    let v = chars_of(s);
    let mut i: usize = 0;
    assert(v@.skip(0) =~= v@);
    while i < v.len() && v[i] != c
        invariant
            i <= v@.len(),
            v@ == s@,
            first_index(s@, c) == i + first_index(v@.skip(i as int), c),
        decreases v@.len() - i,
    {
        assert(v@.skip(i as int).drop_first() =~= v@.skip(i + 1));
        i = i + 1;
    }
    let end: usize = v.len();
    if i < end {
        assert(v@.subrange(0, i as int) =~= v@.take(i as int));
        assert(v@.subrange(i + 1, end as int) =~= v@.skip(i + 1));
        (text_between(&v, 0, i), text_between(&v, i + 1, end))
    } else {
        (s.to_owned(), String::new())
    }
}

/// The text that a byte sequence is shown as that is not UTF-8.
pub uninterp spec fn patched(bytes: Seq<u8>) -> Seq<char>;

/// The text that a byte sequence is shown as.
pub open spec fn lossy(bytes: Seq<u8>) -> Seq<char> {
    if valid_utf8(bytes) {
        decode_utf8(bytes)
    } else {
        patched(bytes)
    }
}

/// `String::from_utf8_lossy` decodes UTF-8, with replacement characters where the bytes are not
/// UTF-8; the text is a function of the bytes alone. Where and how often a replacement character
/// stands is left unsaid.
#[verifier::external_body]
pub(crate) fn lossy_text(bytes: &[u8]) -> (r: String)
    ensures
        r@ == (if valid_utf8(bytes@) {
            decode_utf8(bytes@)
        } else {
            patched(bytes@)
        }),
{
    String::from_utf8_lossy(bytes).into_owned()
}

/// `std::str::from_utf8` decodes bytes that are UTF-8 and refuses all others.
#[verifier::external_body]
pub(crate) fn utf8_text(bytes: &[u8]) -> (r: Option<String>)
    ensures
        match r {
            Some(t) => valid_utf8(bytes@) && t@ == decode_utf8(bytes@),
            None => !valid_utf8(bytes@),
        },
{
    std::str::from_utf8(bytes).ok().map(String::from)
}

proof fn lemma_scalar_bytes(c: u32)
    by (bit_vector)
    ensures
        c <= 0x7f ==> leading_byte_width_1(c) == c,
        leading_byte_width_2(c) >= 0x80,
        leading_byte_width_3(c) >= 0x80,
        leading_byte_width_4(c) >= 0x80,
        last_continuation_byte(c) >= 0x80,
        second_last_continuation_byte(c) >= 0x80,
        third_last_continuation_byte(c) >= 0x80,
{
}

/// A byte below 128 of the UTF-8 encoding of a text stands for a character of the text.
pub proof fn ascii_byte_is_char(s: Seq<char>, i: int)
    requires
        0 <= i < encode_utf8(s).len(),
        encode_utf8(s)[i] < 0x80,
    ensures
        exists|k: int| 0 <= k < s.len() && (#[trigger] s[k]) as u32 == encode_utf8(s)[i] as u32,
    decreases s.len(),
{
    if s.len() > 0 {
        let first = encode_scalar(s[0] as u32);
        lemma_scalar_bytes(s[0] as u32);
        char_is_scalar(s[0]);
        if i < first.len() {
            assert(encode_utf8(s)[i] == first[i]);
            assert(s[0] as u32 == first[i] as u32);
        } else {
            let rest = s.drop_first();
            assert(encode_utf8(s)[i] == encode_utf8(rest)[i - first.len()]);
            ascii_byte_is_char(rest, i - first.len());
            let k = choose|k: int|
                0 <= k < rest.len() && (#[trigger] rest[k]) as u32 == encode_utf8(rest)[i
                    - first.len()] as u32;
            assert(s[k + 1] == rest[k]);
        }
    }
}

/// Splitting at a separator parts what stands before it from what stands behind it.
pub proof fn split_parts_at_separator<T>(a: Seq<T>, b: Seq<T>, sep: T)
    ensures
        split(a.push(sep) + b, sep) == split(a, sep) + split(b, sep),
    decreases b.len(),
{
    let whole = a.push(sep) + b;
    if b.len() == 0 {
        assert(whole =~= a.push(sep));
        assert(whole.drop_last() =~= a);
        assert(split(b, sep) =~= seq![Seq::empty()]);
        assert(split(whole, sep) =~= split(a, sep) + split(b, sep));
    } else {
        split_parts_at_separator(a, b.drop_last(), sep);
        lemma_split_len(b.drop_last(), sep);
        assert(whole.drop_last() =~= a.push(sep) + b.drop_last());
        let left = split(a, sep);
        let right = split(b.drop_last(), sep);
        assert((left + right).last() == right.last());
        assert((left + right).drop_last() =~= left + right.drop_last());
        assert(split(whole, sep) =~= left + split(b, sep));
    }
}

/// A text without the separator is one piece.
pub proof fn split_keeps_whole<T>(s: Seq<T>, sep: T)
    requires
        !s.contains(sep),
    ensures
        split(s, sep) == seq![s],
    decreases s.len(),
{
    if s.len() == 0 {
        assert(s =~= Seq::empty());
    } else {
        assert forall|i: int| 0 <= i < s.drop_last().len() implies s.drop_last()[i] != sep by {
            assert(s.contains(s[i]));
        }
        split_keeps_whole(s.drop_last(), sep);
        assert(s.contains(s.last()));
        assert(s.drop_last().push(s.last()) =~= s);
        assert(split(s, sep) =~= seq![s]);
    }
}

/// No piece holds the separator, and joined again the pieces are the text.
pub proof fn pieces_make_text<T>(s: Seq<T>, sep: T)
    ensures
        forall|i: int| 0 <= i < split(s, sep).len() ==> !(#[trigger] split(s, sep)[i]).contains(sep),
        join(split(s, sep), sep) == s,
    decreases s.len(),
{
    let all = split(s, sep);
    if s.len() == 0 {
        assert(all[0] =~= s);
    } else {
        let front = s.drop_last();
        let parts = split(front, sep);
        pieces_make_text(front, sep);
        lemma_split_len(front, sep);
        assert(front.push(s.last()) =~= s);
        if s.last() == sep {
            assert(all.drop_last() =~= parts);
            assert(join(all, sep) =~= s);
            assert forall|i: int| 0 <= i < all.len() implies !(#[trigger] all[i]).contains(sep) by {
                if i < parts.len() {
                    assert(all[i] == parts[i]);
                }
            }
        } else {
            assert(all.drop_last() =~= parts.drop_last());
            assert(all.last() == parts.last().push(s.last()));
            if parts.len() == 1 {
                assert(join(all, sep) =~= s);
            } else {
                assert(join(all, sep) =~= s);
            }
            assert forall|i: int| 0 <= i < all.len() implies !(#[trigger] all[i]).contains(sep) by {
                if i < parts.len() - 1 {
                    assert(all[i] == parts[i]);
                } else {
                    assert(!parts.last().contains(sep));
                    let last = parts.last().push(s.last());
                    if last.contains(sep) {
                        let k = last.index_of(sep);
                        assert(last[k] == sep);
                        assert(parts.last()[k] == sep);
                    }
                }
            }
        }
    }
}

/// Splitting undoes joining, where no piece holds the separator.
pub proof fn split_undoes_join<T>(parts: Seq<Seq<T>>, sep: T)
    requires
        parts.len() > 0,
        forall|i: int| 0 <= i < parts.len() ==> !(#[trigger] parts[i]).contains(sep),
    ensures
        split(join(parts, sep), sep) == parts,
    decreases parts.len(),
{
    if parts.len() == 1 {
        split_keeps_whole(parts[0], sep);
        assert(parts =~= seq![parts[0]]);
    } else {
        let front = parts.drop_last();
        assert forall|i: int| 0 <= i < front.len() implies !(#[trigger] front[i]).contains(sep) by {
            assert(front[i] == parts[i]);
        }
        split_undoes_join(front, sep);
        split_parts_at_separator(join(front, sep), parts.last(), sep);
        split_keeps_whole(parts.last(), sep);
        assert(front + seq![parts.last()] =~= parts);
    }
}

/// Trimming takes characters of the class off both ends, all of them and no others.
pub proof fn trim_takes_edges(s: Seq<char>, class: CharClass) -> (r: (int, int))
    ensures
        0 <= r.0 <= r.1 <= s.len(),
        trim_both(s, class) == s.subrange(r.0, r.1),
        trim_start(s, class) == s.skip(s.len() - trim_start(s, class).len()),
        forall|i: int| 0 <= i < r.0 || r.1 <= i < s.len() ==> class.has(#[trigger] s[i]),
        r.0 < r.1 ==> !class.has(s[r.0]) && !class.has(s[r.1 - 1]),
    decreases s.len(),
{
    trim_start_edge(s, class);
    let t = trim_start(s, class);
    let a = s.len() - t.len();
    lemma_start_is_class(s, class);
    trim_end_edge(t, class);
    lemma_end_is_class(t, class);
    let b = a + trim_end(t, class).len();
    assert(trim_both(s, class) =~= s.subrange(a, b));
    assert forall|i: int| 0 <= i < a || b <= i < s.len() implies class.has(#[trigger] s[i]) by {
        if i >= b {
            assert(s[i] == t[i - a]);
        }
    }
    if a < b {
        assert(trim_end(t, class)[0] == t[0]);
        assert(s[a] == t[0]);
        assert(trim_end(t, class).last() == s[b - 1]);
    }
    (a, b)
}

proof fn lemma_start_is_class(s: Seq<char>, class: CharClass)
    ensures
        forall|i: int|
            0 <= i < s.len() - trim_start(s, class).len() ==> class.has(#[trigger] s[i]),
    decreases s.len(),
{
    if s.len() > 0 && class.has(s[0]) {
        lemma_start_is_class(s.drop_first(), class);
        trim_start_edge(s.drop_first(), class);
        assert forall|i: int| 0 <= i < s.len() - trim_start(s, class).len() implies class.has(
            #[trigger] s[i],
        ) by {
            if i > 0 {
                assert(s.drop_first()[i - 1] == s[i]);
            }
        }
    }
}

proof fn lemma_end_is_class(s: Seq<char>, class: CharClass)
    ensures
        forall|i: int| trim_end(s, class).len() <= i < s.len() ==> class.has(#[trigger] s[i]),
    decreases s.len(),
{
    if s.len() > 0 && class.has(s.last()) {
        lemma_end_is_class(s.drop_last(), class);
        trim_end_edge(s.drop_last(), class);
        assert forall|i: int| trim_end(s, class).len() <= i < s.len() implies class.has(
            #[trigger] s[i],
        ) by {
            if i < s.len() - 1 {
                assert(s.drop_last()[i] == s[i]);
            }
        }
    }
}

/// A text that neither begins nor ends with the class is kept as it is.
pub proof fn trim_keeps_plain(s: Seq<char>, class: CharClass)
    requires
        s.len() > 0 ==> !class.has(s[0]) && !class.has(s.last()),
    ensures
        trim_both(s, class) == s,
        trim_start(s, class) == s,
        trim_end(s, class) == s,
{
}

/// White space is trimmed off by [`trim`], one character by its class, and the separators of a
/// slug are the dash, the dot and the underscore.
pub proof fn classes_hold(s: Seq<char>, c: char, only: char)
    ensures
        trim(s) == trim_both(s, CharClass::White),
        CharClass::White.has(c) == is_white_space(c),
        CharClass::Only(only).has(c) == (c == only),
        CharClass::SlugEdge.has(c) <==> c == '-' || c == '.' || c == '_',
{
}

/// Replacing goes character by character: each `from` becomes `to`, and no other changes.
pub proof fn replace_is_exact(s: Seq<char>, from: char, to: char)
    ensures
        replace(s, from, to).len() == s.len(),
        forall|i: int|
            0 <= i < s.len() ==> {
                &&& (#[trigger] s[i]) == from ==> replace(s, from, to)[i] == to
                &&& s[i] != from ==> replace(s, from, to)[i] == s[i]
            },
        from != to ==> !replace(s, from, to).contains(from),
        !s.contains(from) ==> replace(s, from, to) == s,
{
    let r = replace(s, from, to);
    if from != to && r.contains(from) {
        let k = r.index_of(from);
        assert(r[k] == from);
        assert(s[k] == from || s[k] != from);
    }
    if !s.contains(from) {
        assert forall|i: int| 0 <= i < s.len() implies r[i] == s[i] by {
            assert(s.contains(s[i]));
        }
        assert(r =~= s);
    }
}

/// Making letters small maps each of the 26 capital letters to its small one and keeps every other
/// character.
pub proof fn small_letters_are_exact(s: Seq<char>)
    ensures
        ascii_lower(s).len() == s.len(),
        forall|i: int|
            0 <= i < s.len() ==> {
                &&& 65 <= (#[trigger] s[i]) as u32 <= 90 ==> ascii_lower(s)[i] as u32 == s[i] as u32
                    + 32
                &&& !(65 <= s[i] as u32 <= 90) ==> ascii_lower(s)[i] == s[i]
            },
        ascii_lower(ascii_lower(s)) == ascii_lower(s),
        is_ascii_chars(s) ==> unicode_lower(s) == ascii_lower(s),
        !is_ascii_chars(s) ==> unicode_lower(s) == lowercase(s),
{
    let low = ascii_lower(s);
    assert forall|i: int| 0 <= i < s.len() implies {
        &&& 65 <= (#[trigger] s[i]) as u32 <= 90 ==> low[i] as u32 == s[i] as u32 + 32
        &&& !(65 <= s[i] as u32 <= 90) ==> low[i] == s[i]
    } by {
        assert(low[i] == ascii_lower_char(s[i]));
    }
    assert(ascii_lower(low) =~= low);
}

/// A numeral has a digit for every power of ten: ten times a number and a digit more is the
/// numeral of the number with the digit behind it.
pub proof fn numeral_is_decimal(n: nat, d: nat)
    requires
        d < 10,
    ensures
        decimal(d) == seq![(48 + d) as char],
        n > 0 ==> decimal(10 * n + d) == decimal(n).push((48 + d) as char),
        decimal(n).len() > 0,
        forall|i: int| 0 <= i < decimal(n).len() ==> '0' <= #[trigger] decimal(n)[i] <= '9',
    decreases n,
{
    assert((10 * n + d) / 10 == n && (10 * n + d) % 10 == d);
    if n >= 10 {
        numeral_is_decimal(n / 10, n % 10);
        assert(n == 10 * (n / 10) + n % 10);
    }
}

/// Reading a numeral gives back the number that was written, with a plus sign in front or
/// without; what is no numeral gives nothing.
pub proof fn numeral_is_read(n: nat, s: Seq<char>)
    requires
        n <= usize::MAX,
    ensures
        parse_size(decimal(n)) == Some(n),
        parse_size(seq!['+'] + decimal(n)) == Some(n),
        parse_size(s) is Some ==> {
            let digits = if s[0] == '+' {
                s.drop_first()
            } else {
                s
            };
            digits.len() > 0 && forall|i: int|
                0 <= i < digits.len() ==> '0' <= #[trigger] digits[i] <= '9'
        },
        s.len() == 0 ==> parse_size(s) is None,
{
    numeral_is_decimal(n, 0);
    lemma_numeral_value(n);
    let d = decimal(n);
    assert((seq!['+'] + d).drop_first() =~= d);
    assert forall|i: int| 0 <= i < d.len() implies is_digit(d[i]) by {
        assert('0' <= decimal(n)[i] <= '9');
    }
    assert(is_digit(d[0]));
    assert(d[0] != '+');
    if parse_size(s) is Some {
        let digits = if s[0] == '+' {
            s.drop_first()
        } else {
            s
        };
        assert forall|i: int| 0 <= i < digits.len() implies '0' <= #[trigger] digits[i] <= '9' by {
            assert(is_digit(digits[i]));
        }
    }
}

proof fn lemma_numeral_value(n: nat)
    ensures
        digits_value(decimal(n)) == n,
    decreases n,
{
    let d = decimal(n);
    if n < 10 {
        assert(d.drop_last() =~= Seq::empty());
        assert(digits_value(d.drop_last()) == 0);
    } else {
        lemma_numeral_value(n / 10);
        assert(d.drop_last() =~= decimal(n / 10));
    }
}

/// One digit more makes the number ten times as large and the digit more.
pub proof fn digit_counts_ten(s: Seq<char>, d: nat)
    requires
        d < 10,
    ensures
        digits_value(s.push((48 + d) as char)) == 10 * digits_value(s) + d,
        digits_value(Seq::empty()) == 0,
{
    assert(s.push((48 + d) as char).drop_last() =~= s);
}

/// A text stands in another if and only if that is made of something, the text, and something
/// more; it begins with it if nothing stands in front.
pub proof fn contained_text_stands_between(s: Seq<char>, a: Seq<char>, p: Seq<char>, b: Seq<char>)
    ensures
        contains(a + p + b, p),
        starts_with(p + b, p),
        starts_with(s, p) ==> s == p + s.skip(p.len() as int),
        contains(s, p) ==> exists|i: int|
            0 <= i && i + p.len() <= s.len() && s == #[trigger] s.take(i) + p + s.skip(
                i + p.len(),
            ),
{
    let whole = a + p + b;
    assert(whole.subrange(a.len() as int, (a.len() + p.len()) as int) =~= p);
    assert(occurs_at(whole, p, a.len() as int));
    assert((p + b).subrange(0, p.len() as int) =~= p);
    if starts_with(s, p) {
        assert(s =~= p + s.skip(p.len() as int)) by {
            assert(s.subrange(0, p.len() as int) == p);
            assert forall|i: int| 0 <= i < p.len() implies s[i] == p[i] by {
                assert(s.subrange(0, p.len() as int)[i] == s[i]);
            }
        }
    }
    if contains(s, p) {
        let i = choose|i: int| occurs_at(s, p, i);
        assert forall|j: int| 0 <= j < p.len() implies s[i + j] == p[j] by {
            assert(s.subrange(i, i + p.len())[j] == s[i + j]);
        }
        assert(s =~= s.take(i) + p + s.skip(i + p.len()));
    }
}

/// What is found is the first place from `from` on at which the text stands; nothing is found
/// only where it stands nowhere.
pub proof fn find_is_first(s: Seq<char>, p: Seq<char>, from: int)
    requires
        0 <= from,
        p.len() > 0,
    ensures
        match find(s, p, from) {
            Some(at) => {
                &&& from <= at
                &&& at + p.len() <= s.len()
                &&& s.subrange(at, at + p.len()) == p
                &&& forall|j: int|
                    from <= j < at ==> #[trigger] s.subrange(j, j + p.len()) != p
            },
            None => forall|j: int|
                from <= j && j + p.len() <= s.len() ==> #[trigger] s.subrange(j, j + p.len()) != p,
        },
    decreases s.len() + 1 - from,
{
    if from + p.len() <= s.len() && !occurs_at(s, p, from) {
        find_is_first(s, p, from + 1);
        assert(s.subrange(from, from + p.len()) != p);
    }
}

/// A text is cut at the first character of a kind: what stands before it goes to one side, all
/// behind it to the other.
pub proof fn cut_is_at_first(a: Seq<char>, b: Seq<char>, c: char)
    requires
        !a.contains(c),
    ensures
        cut(a.push(c) + b, c) == (a, b),
        cut(a, c) == (a, Seq::<char>::empty()),
{
    let whole = a.push(c) + b;
    first_index_bounds(whole, c);
    first_index_bounds(a, c);
    let i = first_index(whole, c);
    assert(whole[a.len() as int] == c);
    if i < a.len() {
        assert(a.contains(a[i]));
    }
    assert(whole.take(i) =~= a);
    assert(whole.skip(i + 1) =~= b);
    if first_index(a, c) < a.len() {
        assert(a.contains(a[first_index(a, c)]));
    }
}

/// The texts of a list are its texts one by one.
pub proof fn views_are_texts(texts: Seq<String>, t: String)
    ensures
        views(texts).len() == texts.len(),
        forall|i: int| 0 <= i < texts.len() ==> #[trigger] views(texts)[i] == texts[i]@,
        optional_text(Some(t)) == Some(t@),
        optional_text(None) == None::<Seq<char>>,
{
}

/// Bytes of UTF-8 are shown as the text that they encode.
pub proof fn encoded_text_is_shown(s: Seq<char>)
    ensures
        lossy(encode_utf8(s)) == s,
{
    encode_utf8_valid_utf8(s);
    encode_utf8_decode_utf8(s);
}

/// Padding of the class is trimmed off, and the text between it is kept.
pub proof fn trim_drops_padding(a: Seq<char>, s: Seq<char>, b: Seq<char>, class: CharClass)
    requires
        forall|i: int| 0 <= i < a.len() ==> class.has(#[trigger] a[i]),
        forall|i: int| 0 <= i < b.len() ==> class.has(#[trigger] b[i]),
        s.len() > 0 ==> !class.has(s[0]) && !class.has(s.last()),
    ensures
        trim_both(a + s + b, class) == s,
    decreases a.len() + b.len(),
{
    let whole = a + s + b;
    if a.len() > 0 {
        assert(whole[0] == a[0]);
        assert(whole.drop_first() =~= a.drop_first() + s + b);
        assert forall|i: int| 0 <= i < a.drop_first().len() implies class.has(
            #[trigger] a.drop_first()[i],
        ) by {
            assert(a.drop_first()[i] == a[i + 1]);
        }
        trim_drops_padding(a.drop_first(), s, b, class);
    } else if s.len() == 0 {
        assert(whole =~= b);
        if b.len() > 0 {
            assert(b.drop_first() =~= a + s + b.drop_first());
            assert forall|i: int| 0 <= i < b.drop_first().len() implies class.has(
                #[trigger] b.drop_first()[i],
            ) by {
                assert(b.drop_first()[i] == b[i + 1]);
            }
            trim_drops_padding(a, s, b.drop_first(), class);
        }
    } else {
        assert(whole[0] == s[0]);
        if b.len() > 0 {
            assert(whole.drop_last() =~= a + s + b.drop_last());
            assert forall|i: int| 0 <= i < b.drop_last().len() implies class.has(
                #[trigger] b.drop_last()[i],
            ) by {
                assert(b.drop_last()[i] == b[i]);
            }
            trim_drops_padding(a, s, b.drop_last(), class);
            assert((a + s + b.drop_last())[0] == s[0]);
            assert(whole.last() == b.last());
        } else {
            assert(whole =~= s);
        }
    }
}

/// The encoding of two texts is that of the one, then that of the other.
pub proof fn encoding_goes_on(a: Seq<char>, b: Seq<char>)
    ensures
        encode_utf8(a + b) == encode_utf8(a) + encode_utf8(b),
    decreases a.len(),
{
    if a.len() == 0 {
        assert(a + b =~= b);
        assert(encode_utf8(a) + encode_utf8(b) =~= encode_utf8(b));
    } else {
        let rest = a.drop_first();
        encoding_goes_on(rest, b);
        assert((a + b).drop_first() =~= rest + b);
        assert((a + b)[0] == a[0]);
        assert(encode_utf8(a + b) =~= encode_utf8(a) + encode_utf8(b));
    }
}

proof fn lemma_split_append<T>(a: Seq<T>, b: Seq<T>, sep: T)
    requires
        !b.contains(sep),
    ensures
        split(a + b, sep) == split(a, sep).drop_last().push(split(a, sep).last() + b),
    decreases b.len(),
{
    lemma_split_len(a, sep);
    let parts = split(a, sep);
    if b.len() == 0 {
        assert(a + b =~= a);
        assert(parts.last() + b =~= parts.last());
        assert(parts.drop_last().push(parts.last()) =~= parts);
    } else {
        let front = b.drop_last();
        assert(b.contains(b.last()));
        assert forall|i: int| 0 <= i < front.len() implies front[i] != sep by {
            assert(b.contains(b[i]));
        }
        lemma_split_append(a, front, sep);
        assert((a + b).drop_last() =~= a + front);
        assert((a + b).last() == b.last());
        let before = split(a + front, sep);
        assert(before.drop_last() =~= parts.drop_last());
        assert((parts.last() + front).push(b.last()) =~= parts.last() + b);
    }
}

/// An ASCII character is encoded as itself, and no other character has its byte.
pub proof fn ascii_stands_for_itself(s: Seq<char>, c: char, b: u8)
    requires
        b < 0x80,
        c as u32 == b as u32,
    ensures
        encode_utf8(seq![c]) == seq![b],
        encode_utf8(s).contains(b) <==> s.contains(c),
    decreases s.len(),
{
    let one = seq![c];
    assert(is_ascii_chars(one)) by {
        assert(one[0] == c);
    }
    is_ascii_chars_encode_utf8(one);
    assert(encode_utf8(one) =~= seq![b]) by {
        assert(one[0] as u8 == encode_utf8(one)[0]);
    }
    if encode_utf8(s).contains(b) {
        let i = encode_utf8(s).index_of(b);
        ascii_byte_is_char(s, i);
        let k = choose|k: int|
            0 <= k < s.len() && (#[trigger] s[k]) as u32 == encode_utf8(s)[i] as u32;
        char_u32_cast(s[k], b as u32);
        char_u32_cast(c, b as u32);
        assert(s[k] == c);
    }
    if s.contains(c) {
        let k = s.index_of(c);
        assert(s =~= s.take(k) + (one + s.skip(k + 1)));
        encoding_goes_on(s.take(k), one + s.skip(k + 1));
        encoding_goes_on(one, s.skip(k + 1));
        assert(encode_utf8(s)[encode_utf8(s.take(k)).len() as int] == b);
    }
}

/// The pieces of an encoded text between ASCII separators are the encoded pieces of the text.
pub proof fn pieces_are_encoded(s: Seq<char>, c: char, b: u8)
    requires
        b < 0x80,
        c as u32 == b as u32,
    ensures
        split(encode_utf8(s), b) == split(s, c).map_values(|piece: Seq<char>| encode_utf8(piece)),
    decreases s.len(),
{
    let enc = |piece: Seq<char>| encode_utf8(piece);
    let none = Seq::<char>::empty();
    if s.len() == 0 {
        assert(s =~= none);
        assert(encode_utf8(s) =~= Seq::empty());
        assert(split(encode_utf8(s), b) =~= split(s, c).map_values(enc));
    } else {
        let front = s.drop_last();
        let last = s.last();
        let one = seq![last];
        assert(s =~= front + one);
        encoding_goes_on(front, one);
        pieces_are_encoded(front, c, b);
        let parts = split(front, c);
        lemma_split_len(front, c);
        ascii_stands_for_itself(one, c, b);
        if last == c {
            assert(one =~= seq![c]);
            assert(encode_utf8(s) =~= encode_utf8(front).push(b));
            assert(encode_utf8(front).push(b).drop_last() =~= encode_utf8(front));
            assert(encode_utf8(none) =~= Seq::empty());
            assert(split(encode_utf8(s), b) =~= split(s, c).map_values(enc));
        } else {
            assert(!one.contains(c)) by {
                assert(one[0] == last);
            }
            lemma_split_append(encode_utf8(front), encode_utf8(one), b);
            encoding_goes_on(parts.last(), one);
            assert(parts.last() + one =~= parts.last().push(last));
            assert(split(encode_utf8(s), b) =~= split(s, c).map_values(enc));
        }
    }
}

} // verus!
