//! URLs: their path and query, percent-encoding, and query parameters.
use crate::order::TextMap;
use crate::text;
use vstd::prelude::*;
use vstd::string::*;
use vstd::utf8::*;

verus! {

/// Cuts a URL at its first question mark into path and query.
pub fn split_url(url: &str) -> (r: (String, String))
    ensures
        (r.0@, r.1@) == text::cut(url@, '?'),
{
    text::cut_text(url, '?')
}

/// The value of a hexadecimal digit.
pub open spec fn hex_digit(b: u8) -> Option<u8> {
    if 0x30 <= b <= 0x39 {
        Some((b - 0x30) as u8)
    } else if 0x41 <= b <= 0x46 {
        Some((b - 0x37) as u8)
    } else if 0x61 <= b <= 0x66 {
        Some((b - 0x57) as u8)
    } else {
        None
    }
}

/// The byte that two characters behind a percent sign stand for: two hexadecimal digits, or a
/// plus sign and one.
pub open spec fn hex_pair(x: u8, y: u8) -> Option<u8> {
    match (hex_digit(x), hex_digit(y)) {
        (Some(hi), Some(lo)) => Some((hi * 16 + lo) as u8),
        (None, Some(lo)) => if x == 0x2b {
            Some(lo)
        } else {
            None
        },
        _ => None,
    }
}

/// The bytes that percent-encoded bytes stand for; a plus sign stands for a space.
pub open spec fn percent_bytes(b: Seq<u8>) -> Seq<u8>
    decreases b.len(),
{
    if b.len() == 0 {
        Seq::empty()
    } else if b[0] == 0x25 && b.len() > 2 && hex_pair(b[1], b[2]) is Some {
        seq![hex_pair(b[1], b[2])->0] + percent_bytes(b.skip(3))
    } else if b[0] == 0x2b {
        seq![0x20u8] + percent_bytes(b.skip(1))
    } else {
        seq![b[0]] + percent_bytes(b.skip(1))
    }
}

/// The text that a percent-encoded text stands for.
pub open spec fn percent_decoded(s: Seq<char>) -> Seq<char> {
    text::lossy(percent_bytes(encode_utf8(s)))
}

/// Whether the two bytes behind each percent sign, where there are two, end with a character.
pub open spec fn sliceable(b: Seq<u8>) -> bool {
    forall|i: int|
        0 <= i && i + 3 < b.len() && #[trigger] b[i] == 0x25 ==> !is_continuation_byte(b[i + 3])
}

/// Whether a text can be percent-decoded: no percent sign is followed by two bytes that end
/// inside a character. Every ASCII text can.
pub open spec fn decodable(s: Seq<char>) -> bool {
    sliceable(encode_utf8(s))
}

/// Every ASCII text can be percent-decoded.
pub proof fn ascii_is_decodable(s: Seq<char>)
    requires
        is_ascii_chars(s),
    ensures
        decodable(s),
{
    is_ascii_chars_encode_utf8(s);
    let b = encode_utf8(s);
    assert forall|i: int| 0 <= i && i + 3 < b.len() && #[trigger] b[i] == 0x25 implies !is_continuation_byte(
        b[i + 3],
    ) by {
        is_ascii_chars_nat_bound(s);
        assert(b[i + 3] == s[i + 3] as u8);
        assert(s[i + 3] as nat <= 127);
    }
}

/// Tests whether a text can be percent-decoded.
pub fn is_decodable(s: &str) -> (r: bool)
    ensures
        r == decodable(s@),
{
    let b = s.as_bytes();
    let mut i: usize = 0;
    let end: usize = b.len();
    while i < end && 3 < end - i
        invariant
            i <= end,
            end == b@.len(),
            b@ == encode_utf8(s@),
            forall|j: int|
                0 <= j < i && j + 3 < b@.len() && #[trigger] b@[j] == 0x25
                    ==> !is_continuation_byte(b@[j + 3]),
        decreases end - i,
    {
        if b[i] == 0x25 && 0x80 <= b[i + 3] && b[i + 3] <= 0xbf {
            assert(is_continuation_byte(b@[i + 3]));
            return false;
        }
        i = i + 1;
    }
    true
}

/// Tells the value of a hexadecimal digit.
fn hex_value(b: u8) -> (r: Option<u8>)
    ensures
        r == hex_digit(b),
        r is Some ==> r->0 < 16,
{
    if 0x30 <= b && b <= 0x39 {
        Some(b - 0x30)
    } else if 0x41 <= b && b <= 0x46 {
        Some(b - 0x37)
    } else if 0x61 <= b && b <= 0x66 {
        Some(b - 0x57)
    } else {
        None
    }
}

/// Tells the byte that two characters behind a percent sign stand for.
fn hex_byte(x: u8, y: u8) -> (r: Option<u8>)
    ensures
        r == hex_pair(x, y),
{
    match (hex_value(x), hex_value(y)) {
        (Some(hi), Some(lo)) => Some(hi * 16 + lo),
        (None, Some(lo)) => if x == 0x2b {
            Some(lo)
        } else {
            None
        },
        _ => None,
    }
}

/// Decodes a percent-encoded text.
pub fn percent_decode(input: &str) -> (r: String)
    requires
        decodable(input@),
    ensures
        r@ == percent_decoded(input@),
{
    let b = input.as_bytes();
    let mut out: Vec<u8> = Vec::new();
    let mut i: usize = 0;
    let end: usize = b.len();
    proof {
        assert(b@.skip(0) =~= b@);
        assert(out@ + percent_bytes(b@) =~= percent_bytes(b@));
    }
    while i < end
        invariant
            i <= end,
            end == b@.len(),
            percent_bytes(b@) == out@ + percent_bytes(b@.skip(i as int)),
        decreases end - i,
    {
        let ghost rest = b@.skip(i as int);
        let ghost done = out@;
        if b[i] == 0x25 && end - i > 2 {
            if let Some(v) = hex_byte(b[i + 1], b[i + 2]) {
                proof {
                    assert(rest.skip(3) =~= b@.skip(i + 3));
                    assert(done + (seq![v] + percent_bytes(rest.skip(3))) =~= done.push(v)
                        + percent_bytes(b@.skip(i + 3)));
                }
                out.push(v);
                i = i + 3;
                continue ;
            }
        }
        let c: u8 = if b[i] == 0x2b {
            0x20
        } else {
            b[i]
        };
        proof {
            assert(rest.skip(1) =~= b@.skip(i + 1));
            assert(done + (seq![c] + percent_bytes(rest.skip(1))) =~= done.push(c) + percent_bytes(
                b@.skip(i + 1),
            ));
        }
        out.push(c);
        i = i + 1;
    }
    assert(out@ =~= percent_bytes(b@));
    text::lossy_text(&out)
}

proof fn lemma_plain_bytes(b: Seq<u8>)
    requires
        forall|i: int| 0 <= i < b.len() ==> #[trigger] b[i] != 0x25 && b[i] != 0x2b,
    ensures
        percent_bytes(b) == b,
    decreases b.len(),
{
    if b.len() > 0 {
        assert forall|i: int| 0 <= i < b.skip(1).len() implies #[trigger] b.skip(1)[i] != 0x25
            && b.skip(1)[i] != 0x2b by {
            assert(b.skip(1)[i] == b[i + 1]);
        }
        lemma_plain_bytes(b.skip(1));
        assert(seq![b[0]] + b.skip(1) =~= b);
    } else {
        assert(percent_bytes(b) =~= b);
    }
}

/// A text without percent signs and plus signs stands for itself.
pub proof fn plain_text_is_kept(s: Seq<char>)
    requires
        !s.contains('%'),
        !s.contains('+'),
    ensures
        decodable(s),
        percent_decoded(s) == s,
{
    let b = encode_utf8(s);
    assert forall|i: int| 0 <= i < b.len() implies #[trigger] b[i] != 0x25 && b[i] != 0x2b by {
        if b[i] < 0x80 {
            text::ascii_byte_is_char(s, i);
            let k = choose|k: int| 0 <= k < s.len() && (#[trigger] s[k]) as u32 == b[i] as u32;
            assert(s.contains(s[k]));
            char_u32_cast(s[k], b[i] as u32);
            assert(0x25u32 as char == '%' && 0x2bu32 as char == '+');
        }
    }
    lemma_plain_bytes(b);
    encode_utf8_valid_utf8(s);
    encode_utf8_decode_utf8(s);
}

/// The hexadecimal digit of a number below sixteen, with a capital or a small letter.
pub open spec fn hex_char(d: int, capital: bool) -> u8 {
    if d < 10 {
        (0x30 + d) as u8
    } else if capital {
        (0x37 + d) as u8
    } else {
        (0x57 + d) as u8
    }
}

/// How a byte is written in a percent-encoded text: as itself, as a plus sign, or as a percent
/// sign and two hexadecimal digits, each with a capital or a small letter.
pub ghost enum Writing {
    Plain,
    Plus,
    Hex { high: bool, low: bool },
}

/// Whether a byte may be written so: as itself if it is ASCII and no sign of the encoding, and as
/// a plus sign if it is a space.
pub open spec fn fits(b: u8, how: Writing) -> bool {
    match how {
        Writing::Plain => b < 0x80 && b != 0x25 && b != 0x2b,
        Writing::Plus => b == 0x20,
        Writing::Hex { .. } => true,
    }
}

/// A byte as it is written.
pub open spec fn written_byte(b: u8, how: Writing) -> Seq<u8> {
    match how {
        Writing::Plain => seq![b],
        Writing::Plus => seq![0x2bu8],
        Writing::Hex { high, low } => seq![
            0x25u8,
            hex_char(b as int / 16, high),
            hex_char(b as int % 16, low),
        ],
    }
}

/// Bytes with each as it is written.
pub open spec fn encoded_bytes(b: Seq<u8>, how: Seq<Writing>) -> Seq<u8>
    decreases b.len(),
{
    if b.len() == 0 {
        Seq::empty()
    } else {
        written_byte(b[0], how[0]) + encoded_bytes(b.drop_first(), how.drop_first())
    }
}

/// A text that is percent-encoded, each byte as it is written.
pub open spec fn percent_encoded(s: Seq<char>, how: Seq<Writing>) -> Seq<char> {
    encoded_bytes(encode_utf8(s), how).map_values(|b: u8| b as char)
}

proof fn lemma_encoded(b: Seq<u8>, how: Seq<Writing>)
    requires
        how.len() == b.len(),
        forall|i: int| 0 <= i < b.len() ==> #[trigger] fits(b[i], how[i]),
    ensures
        percent_bytes(encoded_bytes(b, how)) == b,
        forall|i: int|
            0 <= i < encoded_bytes(b, how).len() ==> #[trigger] encoded_bytes(b, how)[i] < 0x80,
    decreases b.len(),
{
    let all = encoded_bytes(b, how);
    if b.len() == 0 {
        assert(percent_bytes(all) =~= b);
    } else {
        let first = written_byte(b[0], how[0]);
        let rest = encoded_bytes(b.drop_first(), how.drop_first());
        assert forall|i: int| 0 <= i < b.drop_first().len() implies #[trigger] fits(
            b.drop_first()[i],
            how.drop_first()[i],
        ) by {
            assert(fits(b[i + 1], how[i + 1]));
        }
        lemma_encoded(b.drop_first(), how.drop_first());
        assert(fits(b[0], how[0]));
        assert(all == first + rest);
        assert(all.skip(first.len() as int) =~= rest);
        if how[0] is Hex {
            assert(all[0] == 0x25 && all[1] == first[1] && all[2] == first[2]);
            assert(hex_pair(all[1], all[2]) == Some(b[0]));
        } else {
            assert(all[0] == first[0]);
        }
        assert(seq![b[0]] + b.drop_first() =~= b);
        assert forall|i: int| 0 <= i < all.len() implies #[trigger] all[i] < 0x80 by {
            if i >= first.len() {
                assert(all[i] == rest[i - first.len()]);
            } else {
                assert(all[i] == first[i]);
            }
        }
    }
}

/// Decoding a percent-encoded text gives the text back, whichever bytes stand for themselves and
/// whether the digits have capital or small letters.
pub proof fn decoding_undoes_encoding(s: Seq<char>, how: Seq<Writing>)
    requires
        how.len() == encode_utf8(s).len(),
        forall|i: int| 0 <= i < how.len() ==> #[trigger] fits(encode_utf8(s)[i], how[i]),
    ensures
        decodable(percent_encoded(s, how)),
        percent_decoded(percent_encoded(s, how)) == s,
{
    let b = encoded_bytes(encode_utf8(s), how);
    let t = percent_encoded(s, how);
    lemma_encoded(encode_utf8(s), how);
    assert forall|i: int| 0 <= i < t.len() implies 0 <= (#[trigger] t[i]) as nat <= 127 && t[i] as u8
        == b[i] by {
        assert(b[i] < 0x80);
        assert(t[i] == b[i] as char);
    }
    assert(is_ascii_chars(t));
    is_ascii_chars_encode_utf8(t);
    assert(encode_utf8(t) =~= b);
    ascii_is_decodable(t);
    encode_utf8_valid_utf8(s);
    encode_utf8_decode_utf8(s);
}

/// Every byte can be written as a percent sign and two digits, so any text has an encoding in
/// capital and one in small letters, and both are decoded to the text.
pub proof fn either_case_is_decoded(s: Seq<char>, capital: bool)
    ensures
        ({
            let hex = Writing::Hex { high: capital, low: capital };
            let t = percent_encoded(s, Seq::new(encode_utf8(s).len(), |i: int| hex));
            decodable(t) && percent_decoded(t) == s
        }),
{
    let hex = Writing::Hex { high: capital, low: capital };
    decoding_undoes_encoding(s, Seq::new(encode_utf8(s).len(), |i: int| hex));
}

/// The parameters that the pieces of a query stand for; a later one replaces an earlier one of
/// the same name, and an empty piece stands for none.
pub open spec fn parameters(pieces: Seq<Seq<char>>) -> Map<Seq<char>, Seq<char>>
    decreases pieces.len(),
{
    if pieces.len() == 0 {
        Map::empty()
    } else {
        let before = parameters(pieces.drop_last());
        let piece = pieces.last();
        if piece.len() == 0 {
            before
        } else {
            let (k, v) = text::cut(piece, '=');
            before.insert(percent_decoded(k), percent_decoded(v))
        }
    }
}

/// The parameters of a query.
pub open spec fn query_parameters(query: Seq<char>) -> Map<Seq<char>, Seq<char>> {
    parameters(text::split(query, '&'))
}

/// Whether every name and every value of a query can be percent-decoded.
pub open spec fn query_decodable(query: Seq<char>) -> bool {
    forall|i: int|
        0 <= i < text::split(query, '&').len() ==> {
            let (k, v) = text::cut(#[trigger] text::split(query, '&')[i], '=');
            decodable(k) && decodable(v)
        }
}

/// Tests whether every name and every value of a query can be percent-decoded.
pub fn is_query_decodable(query: &str) -> (r: bool)
    ensures
        r == query_decodable(query@),
{
    let pieces = text::split_text(query, '&');
    let ghost all = text::split(query@, '&');
    let mut i: usize = 0;
    while i < pieces.len()
        invariant
            i <= pieces@.len(),
            all == text::split(query@, '&'),
            text::views(pieces@) == all,
            forall|j: int|
                0 <= j < i ==> {
                    let (k, v) = text::cut(#[trigger] all[j], '=');
                    decodable(k) && decodable(v)
                },
        decreases pieces@.len() - i,
    {
        assert(all[i as int] == pieces@[i as int]@);
        let (k, v) = text::cut_text(pieces[i].as_str(), '=');
        if !is_decodable(k.as_str()) || !is_decodable(v.as_str()) {
            return false;
        }
        i = i + 1;
    }
    true
}

/// The texts that the values of a map of texts hold.
pub open spec fn value_views(map: Map<Seq<char>, String>) -> Map<Seq<char>, Seq<char>> {
    map.map_values(|v: String| v@)
}

/// Reads the parameters of a query.
pub fn parse_query(query: &str) -> (r: TextMap<String>)
    requires
        query_decodable(query@),
    ensures
        value_views(r@) == query_parameters(query@),
{
    let pieces = text::split_text(query, '&');
    let ghost all = text::split(query@, '&');
    let mut out: TextMap<String> = TextMap::new();
    let mut i: usize = 0;
    proof {
        assert(all.take(0) =~= Seq::empty());
        assert(value_views(out@) =~= Map::empty());
    }
    while i < pieces.len()
        invariant
            i <= pieces@.len(),
            query_decodable(query@),
            all == text::split(query@, '&'),
            text::views(pieces@) == all,
            value_views(out@) == parameters(all.take(i as int)),
        decreases pieces@.len() - i,
    {
        assert(all[i as int] == pieces@[i as int]@);
        assert(all.take(i + 1).drop_last() =~= all.take(i as int));
        let ghost before = out@;
        if !pieces[i].as_str().is_empty() {
            let (k, v) = text::cut_text(pieces[i].as_str(), '=');
            let name = percent_decode(k.as_str());
            let value = percent_decode(v.as_str());
            out = out.put(name, value);
            assert(value_views(out@) =~= value_views(before).insert(name@, value@));
        }
        i = i + 1;
    }
    assert(all.take(all.len() as int) =~= all);
    out
}

/// The value of a parameter, if it is given.
pub open spec fn parameter(
    parameters: Map<Seq<char>, Seq<char>>,
    name: Seq<char>,
) -> Option<Seq<char>> {
    if parameters.dom().contains(name) {
        Some(parameters[name])
    } else {
        None
    }
}

/// Tells the value of a parameter.
pub fn parameter_of<'a>(params: &'a TextMap<String>, name: &str) -> (r: Option<&'a str>)
    ensures
        match r {
            Some(v) => parameter(value_views(params@), name@) == Some(v@),
            None => parameter(value_views(params@), name@) is None,
        },
{
    match params.get(name) {
        Some(v) => Some(v.as_str()),
        None => None,
    }
}

/// Each part of a query between ampersands gives one parameter: what stands before its first
/// equals sign is the name and what stands behind it the value, both percent-decoded. It replaces
/// one of that name before it, and changes no other.
pub proof fn parameters_are_read(before: Seq<char>, name: Seq<char>, value: Seq<char>)
    requires
        !name.contains('=') && !name.contains('&'),
        !value.contains('&'),
    ensures
        query_parameters(name + seq!['='] + value) == Map::<Seq<char>, Seq<char>>::empty().insert(
            percent_decoded(name),
            percent_decoded(value),
        ),
        query_parameters(before + seq!['&'] + name + seq!['='] + value) == query_parameters(
            before,
        ).insert(percent_decoded(name), percent_decoded(value)),
        name.len() > 0 ==> query_parameters(before + seq!['&'] + name) == query_parameters(
            before,
        ).insert(percent_decoded(name), percent_decoded(Seq::empty())),
        query_parameters(before + seq!['&']) == query_parameters(before),
        query_parameters(Seq::empty()) == Map::<Seq<char>, Seq<char>>::empty(),
{
    let piece = name + seq!['='] + value;
    assert(piece =~= name.push('=') + value);
    assert(!piece.contains('&')) by {
        if piece.contains('&') {
            let i = piece.index_of('&');
            assert(piece[i] == '&');
            if i < name.len() {
                assert(name.contains(name[i]));
            } else if i > name.len() {
                assert(value.contains(value[i - name.len() - 1]));
            }
        }
    }
    text::cut_is_at_first(name, value, '=');
    lemma_last_piece(before, piece);
    lemma_last_piece(before, name);
    let none = Seq::<char>::empty();
    lemma_last_piece(before, none);
    assert(before + seq!['&'] + none =~= before + seq!['&']);
    assert(before + seq!['&'] + piece =~= before + seq!['&'] + name + seq!['='] + value);
    text::split_keeps_whole(piece, '&');
    text::split_keeps_whole(none, '&');
    assert(seq![piece].drop_last() =~= Seq::empty());
    assert(seq![none].drop_last() =~= Seq::empty());
    assert(parameters(Seq::empty()) =~= Map::empty());
}

proof fn lemma_last_piece(before: Seq<char>, piece: Seq<char>)
    requires
        !piece.contains('&'),
    ensures
        query_parameters(before + seq!['&'] + piece) == (if piece.len() == 0 {
            query_parameters(before)
        } else {
            query_parameters(before).insert(
                percent_decoded(text::cut(piece, '=').0),
                percent_decoded(text::cut(piece, '=').1),
            )
        }),
{
    assert(before + seq!['&'] + piece =~= before.push('&') + piece);
    text::split_parts_at_separator(before, piece, '&');
    text::split_keeps_whole(piece, '&');
    let all = text::split(before, '&') + seq![piece];
    assert(all.drop_last() =~= text::split(before, '&'));
    assert(all.last() == piece);
}

/// A parameter that is given has its value, and one that is not given has none.
pub proof fn given_parameter_has_value(
    map: Map<Seq<char>, Seq<char>>,
    name: Seq<char>,
    value: Seq<char>,
    other: Seq<char>,
)
    ensures
        parameter(map.insert(name, value), name) == Some(value),
        other != name ==> parameter(map.insert(name, value), other) == parameter(map, other),
        parameter(Map::empty(), name) is None,
{
}

/// A percent sign that is not followed by two hexadecimal digits, or a plus sign and one, stands
/// for itself.
pub proof fn bad_escape_is_kept(x: u8, y: u8, rest: Seq<u8>)
    requires
        ({
            let digit = |b: u8| 0x30 <= b <= 0x39 || 0x41 <= b <= 0x46 || 0x61 <= b <= 0x66;
            !digit(y) || (!digit(x) && x != 0x2b)
        }),
    ensures
        percent_bytes(seq![0x25u8, x, y] + rest) == seq![0x25u8] + percent_bytes(seq![x, y] + rest),
        percent_bytes(seq![0x25u8, x]) == seq![0x25u8] + percent_bytes(seq![x]),
        percent_bytes(seq![0x25u8]) == seq![0x25u8],
{
    let all = seq![0x25u8, x, y] + rest;
    assert(all.skip(1) =~= seq![x, y] + rest);
    assert(all[0] == 0x25 && all[1] == x && all[2] == y);
    assert(seq![0x25u8, x].skip(1) =~= seq![x]);
    assert(seq![0x25u8].skip(1) =~= Seq::empty());
    assert(percent_bytes(seq![0x25u8].skip(1)) =~= Seq::empty());
    assert(percent_bytes(seq![0x25u8]) =~= seq![0x25u8]);
}

/// A plus sign stands for a space, and in an escape for nothing.
pub proof fn plus_is_space(y: u8, rest: Seq<u8>)
    requires
        0x30 <= y <= 0x39,
    ensures
        percent_bytes(seq![0x2bu8] + rest) == seq![0x20u8] + percent_bytes(rest),
        percent_bytes(seq![0x25u8, 0x2b, y] + rest) == seq![(y - 0x30) as u8] + percent_bytes(rest),
{
    let a = seq![0x2bu8] + rest;
    assert(a.skip(1) =~= rest);
    assert(a[0] == 0x2b);
    let b = seq![0x25u8, 0x2b, y] + rest;
    assert(b.skip(3) =~= rest);
    assert(b[0] == 0x25 && b[1] == 0x2b && b[2] == y);
}

/// The values of a map are taken by name.
pub proof fn values_are_taken_by_name(map: Map<Seq<char>, String>, name: Seq<char>)
    ensures
        value_views(map).dom() == map.dom(),
        map.contains_key(name) ==> value_views(map)[name] == map[name]@,
{
    assert(value_views(map).dom() =~= map.dom());
}

/// A text can be percent-decoded where the two characters behind each percent sign, as far as they
/// are there, are ASCII; it cannot where the third byte behind a percent sign goes on with a
/// character.
pub proof fn escapes_end_with_characters(s: Seq<char>, p: Seq<u8>, q: Seq<u8>)
    ensures
        (forall|i: int, j: int|
            0 <= i < j < s.len() && j <= i + 2 && #[trigger] s[i] == '%' ==> '\0'
                <= #[trigger] s[j] <= '\u{7f}') ==> decodable(s),
        encode_utf8(s) == p + seq![0x25u8] + q && q.len() >= 3 && 0x80 <= q[2] <= 0xbf
            ==> !decodable(s),
    decreases s.len(),
{
    let b = encode_utf8(s);
    if b == p + seq![0x25u8] + q && q.len() >= 3 && 0x80 <= q[2] <= 0xbf {
        assert(b[p.len() as int] == 0x25);
        assert(b[p.len() + 3int] == q[2]);
    }
    if s.len() > 0 && forall|i: int, j: int|
        0 <= i < j < s.len() && j <= i + 2 && #[trigger] s[i] == '%' ==> '\0' <= #[trigger] s[j]
            <= '\u{7f}' {
        let c = s[0];
        let one = seq![c];
        let rest = s.drop_first();
        let more = encode_utf8(rest);
        assert(s =~= one + rest);
        text::encoding_goes_on(one, rest);
        assert forall|i: int, j: int|
            0 <= i < j < rest.len() && j <= i + 2 && #[trigger] rest[i] == '%' implies
            '\0' <= #[trigger] rest[j] <= '\u{7f}' by {
            assert(rest[i] == s[i + 1] && rest[j] == s[j + 1]);
        }
        escapes_end_with_characters(rest, Seq::empty(), Seq::empty());
        let front = encode_utf8(one);
        text::ascii_stands_for_itself(one, '%', 0x25);
        if c == '%' {
            assert(one =~= seq!['%']);
            assert(b =~= seq![0x25u8] + more);
            assert forall|i: int| 0 <= i && i + 3 < b.len() && #[trigger] b[i] == 0x25 implies
                !is_continuation_byte(b[i + 3]) by {
                if i > 0 {
                    assert(b[i] == more[i - 1] && b[i + 3] == more[i - 1 + 3]);
                } else {
                    lemma_third_starts(rest);
                    assert(b[3] == more[2]);
                }
            }
        } else {
            assert(one[0] == c);
            assert(!one.contains('%'));
            assert forall|i: int| 0 <= i && i + 3 < b.len() && #[trigger] b[i] == 0x25 implies
                !is_continuation_byte(b[i + 3]) by {
                let n: int = front.len() as int;
                if i < n {
                    assert(front[i] == 0x25);
                    assert(front.contains(0x25));
                } else {
                    assert(b[i] == more[i - n] && b[i + 3] == more[i - n + 3]);
                }
            }
        }
    }
}

proof fn lemma_third_starts(s: Seq<char>)
    requires
        encode_utf8(s).len() > 2,
        forall|j: int| 0 <= j < 2 && j < s.len() ==> '\0' <= #[trigger] s[j] <= '\u{7f}',
    ensures
        !is_continuation_byte(encode_utf8(s)[2]),
{
    if s.len() <= 2 {
        assert(is_ascii_chars(s)) by {
            assert forall|j: int| 0 <= j < s.len() implies '\0' <= #[trigger] s[j]
                <= '\u{7f}' by {
                assert(s[j] == s[j]);
            }
        }
        is_ascii_chars_encode_utf8(s);
    } else {
        let a = s.take(2);
        let t = s.skip(2);
        assert(s =~= a + t);
        text::encoding_goes_on(a, t);
        assert(a[0] == s[0] && a[1] == s[1]);
        assert(is_ascii_chars(a)) by {
            assert forall|j: int| 0 <= j < a.len() implies '\0' <= #[trigger] a[j]
                <= '\u{7f}' by {
                assert(a[j] == s[j]);
            }
        }
        is_ascii_chars_encode_utf8(a);
        assert(encode_utf8(a).len() == 2);
        assert(encode_utf8(s)[2] == encode_utf8(t)[0]);
        lemma_first_starts(t);
    }
}

proof fn lemma_first_starts(t: Seq<char>)
    requires
        t.len() > 0,
    ensures
        encode_utf8(t).len() > 0,
        !is_continuation_byte(encode_utf8(t)[0]),
{
    encode_utf8_valid_utf8(t);
    encode_utf8_decode_utf8(t);
}

} // verus!
