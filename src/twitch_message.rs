//! Chat-specific values read from message tags: badges, emotes, colours.
use vstd::prelude::*;
use vstd::utf8::*;
use crate::message::{
    index_of, find_byte, decode_piece, Message, message_tag,
};

verus! {

broadcast use vstd::utf8::encode_utf8_valid_utf8, vstd::utf8::decode_utf8_encode_utf8,
    vstd::utf8::encode_utf8_decode_utf8;

pub const SLASH: u8 = 47;

pub const COMMA: u8 = 44;

pub const HYPHEN: u8 = 45;

pub const PLUS: u8 = 43;

pub const COLON_BYTE: u8 = 58;

/// True when every byte of `d` is an ASCII decimal digit.
pub open spec fn all_digits(d: Seq<u8>) -> bool {
    forall|i: int| 0 <= i < d.len() ==> 48 <= #[trigger] d[i] <= 57
}

/// The number that the decimal digits `d` write.
pub open spec fn digits_value(d: Seq<u8>) -> nat
    decreases d.len(),
{
    if d.len() == 0 {
        0
    } else {
        digits_value(d.drop_last()) * 10 + (d.last() - 48) as nat
    }
}

/// The digits of a number written with an optional leading `+`.
pub open spec fn unsigned_digits(b: Seq<u8>) -> Seq<u8> {
    if b.len() > 0 && b[0] == PLUS {
        b.drop_first()
    } else {
        b
    }
}

/// The unsigned integer that `b` writes in decimal, with an optional leading
/// `+`, if it is at most `max`.
pub open spec fn decimal_value(b: Seq<u8>, max: nat) -> Option<nat> {
    let d = unsigned_digits(b);
    if d.len() > 0 && all_digits(d) && digits_value(d) <= max {
        Some(digits_value(d))
    } else {
        None
    }
}

/// More digits never make a smaller number.
proof fn lemma_digits_value_grows(d: Seq<u8>, i: int)
    requires
        0 <= i <= d.len(),
        all_digits(d),
    ensures
        digits_value(d.subrange(0, i)) <= digits_value(d),
    decreases d.len() - i,
{
    if i < d.len() {
        lemma_digits_value_grows(d, i + 1);
        assert(d.subrange(0, i + 1).drop_last() =~= d.subrange(0, i));
    } else {
        assert(d.subrange(0, i) =~= d);
    }
}

/// Reads `line[from..to]` as an unsigned decimal number of at most `max`.
pub(crate) fn parse_decimal(line: &[u8], from: usize, to: usize, max: u64) -> (r: Option<u64>)
    requires
        from <= to <= line@.len(),
    ensures
        match decimal_value(line@.subrange(from as int, to as int), max as nat) {
            Some(v) => r == Some(v as u64),
            None => r is None,
        },
{
    let ghost b = line@.subrange(from as int, to as int);
    let mut start = from;
    if from < to && line[from] == PLUS {
        start = from + 1;
    }
    let ghost d = unsigned_digits(b);
    assert(d =~= line@.subrange(start as int, to as int));
    if start == to {
        return None;
    }
    let mut acc: u64 = 0;
    let mut i = start;
    assert(d.subrange(0, 0) =~= Seq::<u8>::empty());
    while i < to
        invariant
            from <= start <= i <= to <= line@.len(),
            d == line@.subrange(start as int, to as int),
            d == unsigned_digits(line@.subrange(from as int, to as int)),
            all_digits(d.subrange(0, i - start)),
            acc as nat == digits_value(d.subrange(0, i - start)),
            acc <= max,
        decreases to - i,
    {
        let c = line[i];
        let ghost pre = d.subrange(0, i - start);
        let ghost next = d.subrange(0, i - start + 1);
        assert(next.drop_last() =~= pre);
        assert(next.last() == c);
        if c < 48 || c > 57 {
            assert(!all_digits(d)) by {
                assert(d[i - start] == c);
            }
            return None;
        }
        assert(all_digits(next)) by {
            assert forall|j: int| 0 <= j < next.len() implies 48 <= #[trigger] next[j] <= 57 by {
                if j < pre.len() {
                    assert(next[j] == pre[j]);
                }
            }
        }
        let grown = match acc.checked_mul(10) {
            Some(t) => t.checked_add((c - 48) as u64),
            None => None,
        };
        match grown {
            Some(v) if v <= max => {
                acc = v;
            },
            _ => {
                proof {
                    assert(digits_value(next) == acc * 10 + (c - 48) as nat);
                    if all_digits(d) {
                        lemma_digits_value_grows(d, i - start + 1);
                    }
                }
                return None;
            },
        }
        i = i + 1;
    }
    assert(d.subrange(0, i - start) =~= d);
    Some(acc)
}

/// The set and version of a badge written `set/version`.
pub open spec fn badge_parts(b: Seq<u8>) -> Option<(Seq<u8>, Seq<u8>)> {
    let i = index_of(b, SLASH);
    if i < b.len() {
        Some((b.subrange(0, i as int), b.subrange(i + 1int, b.len() as int)))
    } else {
        None
    }
}

/// A display badge: its set and its version within the set.
#[derive(Clone, Debug, PartialEq, Eq, Hash)]
pub struct TwitchBadge {
    pub set: String,
    pub version: String,
}

impl View for TwitchBadge {
    type V = (Seq<char>, Seq<char>);

    open spec fn view(&self) -> (Seq<char>, Seq<char>) {
        (self.set@, self.version@)
    }
}

/// Reads the badge `line[from..to]`, cut out of valid UTF-8 at ASCII bytes.
fn badge_in(line: &[u8], from: usize, to: usize) -> (r: Result<TwitchBadge, ()>)
    requires
        valid_utf8(line@),
        from <= to <= line@.len(),
        from == 0 || line@[from - 1] < 128,
        to == line@.len() || line@[to as int] < 128,
    ensures
        r is Ok <==> badge_parts(line@.subrange(from as int, to as int)) is Some,
        r is Ok ==> badge_parts(line@.subrange(from as int, to as int)) == Some(
            (encode_utf8(r->Ok_0.set@), encode_utf8(r->Ok_0.version@)),
        ),
{
    let ghost b = line@.subrange(from as int, to as int);
    let i = find_byte(line, SLASH, from, to);
    if i == to {
        return Err(());
    }
    assert(b.subrange(0, i - from) =~= line@.subrange(from as int, i as int));
    assert(b.subrange(i - from + 1, b.len() as int) =~= line@.subrange(i + 1int, to as int));
    let set = decode_piece(line, from, i);
    let version = decode_piece(line, i + 1, to);
    Ok(TwitchBadge { set, version })
}

impl TwitchBadge {
    /// Reads a badge written `set/version`; the version is what follows the
    /// first `/`.
    pub fn from_str(s: &str) -> (r: Result<TwitchBadge, ()>)
        ensures
            r is Ok <==> badge_parts(encode_utf8(s@)) is Some,
            r is Ok ==> badge_parts(encode_utf8(s@)) == Some(
                (encode_utf8(r->Ok_0.set@), encode_utf8(r->Ok_0.version@)),
            ),
    {
        let b = s.as_bytes();
        assert(b@.subrange(0, b@.len() as int) =~= b@);
        badge_in(b, 0, b.len())
    }

    /// A copy with the same set and version.
    pub fn duplicate(&self) -> (r: TwitchBadge)
        ensures
            r@ == self@,
    {
        TwitchBadge { set: self.set.clone(), version: self.version.clone() }
    }
}

/// An emote: its id and the text that stands for it.
#[derive(Clone, Debug)]
pub struct TwitchEmote {
    pub id: u64,
    pub code: String,
}

impl View for TwitchEmote {
    type V = (u64, Seq<char>);

    open spec fn view(&self) -> (u64, Seq<char>) {
        (self.id, self.code@)
    }
}

impl TwitchEmote {
    /// A copy with the same id and code.
    pub fn duplicate(&self) -> (r: TwitchEmote)
        ensures
            r@ == self@,
    {
        TwitchEmote { id: self.id, code: self.code.clone() }
    }
}

/// The emotes as (id, code) pairs.
pub open spec fn emotes_view(v: Seq<TwitchEmote>) -> Seq<(u64, Seq<char>)> {
    v.map_values(|e: TwitchEmote| e@)
}

/// A copy of a list of emotes.
pub fn copy_emotes(v: &Vec<TwitchEmote>) -> (r: Vec<TwitchEmote>)
    ensures
        emotes_view(r@) == emotes_view(v@),
{
    let mut out: Vec<TwitchEmote> = Vec::new();
    let n = v.len();
    let mut i: usize = 0;
    while i < n
        invariant
            n == v@.len(),
            i <= n,
            emotes_view(out@) == emotes_view(v@).subrange(0, i as int),
        decreases n - i,
    {
        let ghost before = out@;
        let e = v[i].duplicate();
        out.push(e);
        assert(out@ == before.push(e));
        assert(emotes_view(out@) =~= emotes_view(before).push(e@));
        assert(emotes_view(out@) =~= emotes_view(v@).subrange(0, i + 1));
        i = i + 1;
    }
    assert(emotes_view(v@).subrange(0, n as int) =~= emotes_view(v@));
    out
}

/// A start and an end offset written `start-end`.
pub open spec fn range_parts(b: Seq<u8>) -> Option<(usize, usize)> {
    let i = index_of(b, HYPHEN);
    if i == b.len() {
        None
    } else {
        match (
            decimal_value(b.subrange(0, i as int), usize::MAX as nat),
            decimal_value(b.subrange(i + 1int, b.len() as int), usize::MAX as nat),
        ) {
            (Some(x), Some(y)) => Some((x as usize, y as usize)),
            _ => None,
        }
    }
}

/// The comma-separated ranges of `s`, if each one is well formed.
pub open spec fn ranges_parts(s: Seq<u8>) -> Option<Seq<(usize, usize)>>
    decreases s.len(),
{
    let j = index_of(s, COMMA);
    match range_parts(s.subrange(0, j as int)) {
        None => None,
        Some(p) => if j < s.len() {
            match ranges_parts(s.subrange(j + 1int, s.len() as int)) {
                None => None,
                Some(rest) => Some(seq![p] + rest),
            }
        } else {
            Some(seq![p])
        },
    }
}

/// An emote id and its ranges, written `id:start-end,start-end`.
pub open spec fn emote_range_parts(b: Seq<u8>) -> Option<(u64, Seq<(usize, usize)>)> {
    let i = index_of(b, COLON_BYTE);
    if i == b.len() {
        None
    } else {
        match decimal_value(b.subrange(0, i as int), u64::MAX as nat) {
            None => None,
            Some(id) => match ranges_parts(b.subrange(i + 1int, b.len() as int)) {
                None => None,
                Some(r) => Some((id as u64, r)),
            },
        }
    }
}

/// `done` put in front of the ranges of `rest`, if those are well formed.
pub open spec fn prepend_ranges(done: Seq<(usize, usize)>, rest: Option<Seq<(usize, usize)>>) -> Option<
    Seq<(usize, usize)>,
> {
    match rest {
        None => None,
        Some(r) => Some(done + r),
    }
}

/// Where an emote stands in a message: its id, and the first and last
/// character offset of each occurrence.
#[derive(Clone, Debug)]
pub struct TwitchEmoteRange {
    pub id: u64,
    pub ranges: Vec<(usize, usize)>,
}

/// Reads the range `line[from..to]`.
fn parse_range(line: &[u8], from: usize, to: usize) -> (r: Option<(usize, usize)>)
    requires
        from <= to <= line@.len(),
    ensures
        r == range_parts(line@.subrange(from as int, to as int)),
{
    let ghost b = line@.subrange(from as int, to as int);
    let h = find_byte(line, HYPHEN, from, to);
    if h == to {
        return None;
    }
    assert(b.subrange(0, h - from) =~= line@.subrange(from as int, h as int));
    assert(b.subrange(h - from + 1, b.len() as int) =~= line@.subrange(h + 1int, to as int));
    let start = parse_decimal(line, from, h, usize::MAX as u64);
    let end = parse_decimal(line, h + 1, to, usize::MAX as u64);
    match (start, end) {
        (Some(x), Some(y)) => Some((x as usize, y as usize)),
        _ => None,
    }
}

impl TwitchEmoteRange {
    /// Reads an emote's ranges written `id:start-end,start-end,...`.
    pub fn from_str(s: &str) -> (r: Result<TwitchEmoteRange, ()>)
        ensures
            r is Ok <==> emote_range_parts(encode_utf8(s@)) is Some,
            r is Ok ==> emote_range_parts(encode_utf8(s@)) == Some(
                (r->Ok_0.id, r->Ok_0.ranges@),
            ),
    {
        let b = s.as_bytes();
        assert(b@.subrange(0, b@.len() as int) =~= b@);
        emote_range_in(b, 0, b.len())
    }
}

/// Reads the emote ranges `line[from..to]`.
fn emote_range_in(line: &[u8], from: usize, to: usize) -> (r: Result<TwitchEmoteRange, ()>)
    requires
        from <= to <= line@.len(),
    ensures
        r is Ok <==> emote_range_parts(line@.subrange(from as int, to as int)) is Some,
        r is Ok ==> emote_range_parts(line@.subrange(from as int, to as int)) == Some(
            (r->Ok_0.id, r->Ok_0.ranges@),
        ),
{
    let ghost b = line@.subrange(from as int, to as int);
    let c = find_byte(line, COLON_BYTE, from, to);
    if c == to {
        return Err(());
    }
    assert(b.subrange(0, c - from) =~= line@.subrange(from as int, c as int));
    assert(b.subrange(c - from + 1, b.len() as int) =~= line@.subrange(c + 1int, to as int));
    let id = match parse_decimal(line, from, c, u64::MAX) {
        Some(v) => v,
        None => {
            return Err(());
        },
    };
    match parse_ranges(line, c + 1, to) {
        Some(ranges) => Ok(TwitchEmoteRange { id, ranges }),
        None => Err(()),
    }
}

/// The ranges of `line[from..n]`, if they are all well formed.
fn parse_ranges(line: &[u8], from: usize, n: usize) -> (r: Option<Vec<(usize, usize)>>)
    requires
        from <= n <= line@.len(),
    ensures
        match ranges_parts(line@.subrange(from as int, n as int)) {
            None => r is None,
            Some(v) => r is Some && r->Some_0@ == v,
        },
{
    let ghost whole = ranges_parts(line@.subrange(from as int, n as int));
    let mut ranges: Vec<(usize, usize)> = Vec::new();
    let mut pos = from;
    assert(prepend_ranges(ranges@, whole) =~= whole) by {
        match whole {
            None => {},
            Some(w) => {
                assert(ranges@ + w =~= w);
            },
        }
    }
    loop
        invariant
            n <= line@.len(),
            from <= pos <= n,
            whole == ranges_parts(line@.subrange(from as int, n as int)),
            prepend_ranges(ranges@, ranges_parts(line@.subrange(pos as int, n as int))) == whole,
        decreases n - pos,
    {
        let ghost rest = line@.subrange(pos as int, n as int);
        let comma = find_byte(line, COMMA, pos, n);
        assert(rest.subrange(0, comma - pos) =~= line@.subrange(pos as int, comma as int));
        match parse_range(line, pos, comma) {
            None => {
                return None;
            },
            Some(p) => {
                let ghost before = ranges@;
                ranges.push(p);
                assert(ranges@ =~= before + seq![p]);
                if comma == n {
                    return Some(ranges);
                }
                assert(rest.subrange(comma - pos + 1, rest.len() as int) =~= line@.subrange(
                    comma + 1int,
                    n as int,
                ));
                proof {
                    match ranges_parts(line@.subrange(comma + 1int, n as int)) {
                        None => {},
                        Some(r) => {
                            assert(before + (seq![p] + r) =~= ranges@ + r);
                        },
                    }
                }
                pos = comma + 1;
            },
        }
    }
}

/// A colour as red, green and blue.
#[derive(Clone, Copy, Debug, PartialEq, Eq, Structural)]
pub struct UserColor(pub u8, pub u8, pub u8);

/// The value of an ASCII hexadecimal digit.
pub open spec fn hex_digit_value(c: u8) -> Option<u8> {
    if 48 <= c <= 57 {
        Some((c - 48) as u8)
    } else if 97 <= c <= 102 {
        Some((c - 87) as u8)
    } else if 65 <= c <= 70 {
        Some((c - 55) as u8)
    } else {
        None
    }
}

/// The byte that two characters write in hexadecimal; `+` may stand for a
/// leading zero-free sign before a single digit.
pub open spec fn hex_byte(x: u8, y: u8) -> Option<u8> {
    if x == PLUS {
        hex_digit_value(y)
    } else {
        match (hex_digit_value(x), hex_digit_value(y)) {
            (Some(a), Some(b)) => Some((a * 16 + b) as u8),
            _ => None,
        }
    }
}

/// The colour written as seven bytes `#rrggbb` (the first byte is not read).
pub open spec fn color_parts(b: Seq<u8>) -> Option<UserColor> {
    if b.len() != 7 {
        None
    } else {
        match (hex_byte(b[1], b[2]), hex_byte(b[3], b[4]), hex_byte(b[5], b[6])) {
            (Some(r), Some(g), Some(bl)) => Some(UserColor(r, g, bl)),
            _ => None,
        }
    }
}

/// The colours given to names that carry none.
pub open spec fn chat_color(i: int) -> UserColor {
    if i == 0 {
        UserColor(0xFF, 0x00, 0x00)
    } else if i == 1 {
        UserColor(0x00, 0x00, 0xFF)
    } else if i == 2 {
        UserColor(0x00, 0x80, 0x00)
    } else if i == 3 {
        UserColor(0xB2, 0x22, 0x22)
    } else if i == 4 {
        UserColor(0xFF, 0x7F, 0x50)
    } else if i == 5 {
        UserColor(0x9A, 0xCD, 0x32)
    } else if i == 6 {
        UserColor(0xFF, 0x45, 0x00)
    } else if i == 7 {
        UserColor(0x23, 0x8B, 0x57)
    } else if i == 8 {
        UserColor(0xDA, 0xA5, 0x20)
    } else if i == 9 {
        UserColor(0xD2, 0x69, 0x1E)
    } else if i == 10 {
        UserColor(0x5F, 0x9E, 0xA0)
    } else if i == 11 {
        UserColor(0x1E, 0x90, 0xFF)
    } else if i == 12 {
        UserColor(0xFF, 0x69, 0xB4)
    } else if i == 13 {
        UserColor(0x8A, 0x2B, 0xE2)
    } else {
        UserColor(0x00, 0xFF, 0x7F)
    }
}

/// The value of one hexadecimal digit.
fn hex_digit(c: u8) -> (r: Option<u8>)
    ensures
        r == hex_digit_value(c),
{
    if 48 <= c && c <= 57 {
        Some(c - 48)
    } else if 97 <= c && c <= 102 {
        Some(c - 87)
    } else if 65 <= c && c <= 70 {
        Some(c - 55)
    } else {
        None
    }
}

/// The byte that two characters write in hexadecimal.
fn parse_hex_byte(x: u8, y: u8) -> (r: Option<u8>)
    ensures
        r == hex_byte(x, y),
{
    if x == PLUS {
        return hex_digit(y);
    }
    match (hex_digit(x), hex_digit(y)) {
        (Some(a), Some(b)) => Some(a * 16 + b),
        _ => None,
    }
}

/// A hash of a name, as std's default hasher computes it.
pub uninterp spec fn name_hash(name: Seq<char>) -> u64;

/// Relies on `std::hash::Hash` for `str` fed to a `DefaultHasher::new()`:
/// every such hasher starts from the same keys, so the hash depends on the
/// name alone.
#[verifier::external_body]
fn hash_of_name(name: &str) -> (r: u64)
    ensures
        r == name_hash(name@),
{
    let mut hasher = std::collections::hash_map::DefaultHasher::new();
    std::hash::Hash::hash(name, &mut hasher);
    std::hash::Hasher::finish(&hasher)
}

impl UserColor {
    /// Reads a colour written `#rrggbb`.
    pub fn from_str(s: &str) -> (r: Result<UserColor, ()>)
        ensures
            r is Ok <==> color_parts(encode_utf8(s@)) is Some,
            r is Ok ==> color_parts(encode_utf8(s@)) == Some(r->Ok_0),
    {
        let b = s.as_bytes();
        if b.len() != 7 {
            return Err(());
        }
        match (parse_hex_byte(b[1], b[2]), parse_hex_byte(b[3], b[4]), parse_hex_byte(b[5], b[6])) {
            (Some(r), Some(g), Some(bl)) => Ok(UserColor(r, g, bl)),
            _ => Err(()),
        }
    }

    /// The colour that a name with the given hash is shown in.
    pub fn from_hash(hash: u64) -> (r: UserColor)
        ensures
            r == chat_color((hash % 15) as int),
    {
        let i = hash % 15;
        if i == 0 {
            UserColor(0xFF, 0x00, 0x00)
        } else if i == 1 {
            UserColor(0x00, 0x00, 0xFF)
        } else if i == 2 {
            UserColor(0x00, 0x80, 0x00)
        } else if i == 3 {
            UserColor(0xB2, 0x22, 0x22)
        } else if i == 4 {
            UserColor(0xFF, 0x7F, 0x50)
        } else if i == 5 {
            UserColor(0x9A, 0xCD, 0x32)
        } else if i == 6 {
            UserColor(0xFF, 0x45, 0x00)
        } else if i == 7 {
            UserColor(0x23, 0x8B, 0x57)
        } else if i == 8 {
            UserColor(0xDA, 0xA5, 0x20)
        } else if i == 9 {
            UserColor(0xD2, 0x69, 0x1E)
        } else if i == 10 {
            UserColor(0x5F, 0x9E, 0xA0)
        } else if i == 11 {
            UserColor(0x1E, 0x90, 0xFF)
        } else if i == 12 {
            UserColor(0xFF, 0x69, 0xB4)
        } else if i == 13 {
            UserColor(0x8A, 0x2B, 0xE2)
        } else {
            UserColor(0x00, 0xFF, 0x7F)
        }
    }

    /// The colour that a name without a colour of its own is shown in.
    pub fn from_name(name: &str) -> (r: UserColor)
        ensures
            r == chat_color((name_hash(name@) % 15) as int),
    {
        UserColor::from_hash(hash_of_name(name))
    }
}

/// The upper-case form of a character (possibly several characters).
pub uninterp spec fn upper_of(c: char) -> Seq<char>;

/// Relies on `char::to_uppercase`: the upper-case mapping of a character
/// depends on the character alone.
#[verifier::external_body]
fn uppercase_char(c: char) -> (r: String)
    ensures
        r@ == upper_of(c),
{
    c.to_uppercase().collect()
}

/// The nick of a source prefix `nick!user@host`: the bytes before the first `!`.
pub open spec fn prefix_nick(b: Seq<u8>) -> Seq<u8> {
    b.subrange(0, index_of(b, 33u8) as int)
}

/// The name with its first character replaced by `first`.
pub open spec fn with_first(first: Seq<char>, name: Seq<char>) -> Seq<char> {
    if name.len() == 0 {
        name
    } else {
        first + name.drop_first()
    }
}

/// `name` with its first character replaced by `first`, the upper-case form
/// of that character.
pub fn name_with_first(first: String, name: &str) -> (r: String)
    ensures
        r@ == with_first(first@, name@),
{
    let n = name.unicode_len();
    if n == 0 {
        return String::new();
    }
    let mut r = first;
    r.append(name.substring_char(1, n));
    assert(r@ =~= with_first(first@, name@));
    r
}

/// The nick of a source prefix with its first character in upper case.
pub open spec fn name_of_prefix(prefix: Seq<char>) -> Seq<char> {
    let nick = decode_utf8(prefix_nick(encode_utf8(prefix)));
    if nick.len() == 0 {
        nick
    } else {
        with_first(upper_of(nick[0]), nick)
    }
}

/// The display name of a source prefix: its nick with the first character in
/// upper case.
pub fn get_name_from_prefix(prefix: &str) -> (r: String)
    ensures
        r@ == name_of_prefix(prefix@),
{
    let b = prefix.as_bytes();
    let n = b.len();
    let bang = find_byte(b, 33u8, 0, n);
    assert(b@.subrange(0, n as int) =~= b@);
    let nick = decode_piece(b, 0, bang);
    assert(nick@ == decode_utf8(prefix_nick(encode_utf8(prefix@))));
    let s = nick.as_str();
    if s.unicode_len() == 0 {
        return String::new();
    }
    let first = uppercase_char(s.get_char(0));
    name_with_first(first, s)
}

/// A chat line sent to a channel.
#[derive(Clone, Debug)]
pub struct TwitchPrivmsg {
    pub name: String,
    pub emotes: Vec<TwitchEmoteRange>,
    pub badges: Vec<TwitchBadge>,
    pub color: UserColor,
    pub to: String,
    pub message: String,
}

/// What the server says of the user: globally, or in one channel.
#[derive(Debug)]
pub struct TwitchUserState {
    pub badges: Vec<TwitchBadge>,
    pub color: UserColor,
    pub display_name: String,
    pub emote_sets: Vec<u64>,
    pub user_id: u64,
    pub user_type: (),
}

/// A message read as a chat event.
#[derive(Clone, Debug)]
pub enum TwitchMessage {
    TwitchPrivmsg(TwitchPrivmsg),
    /// A line this user sent, with the emote sets it may use.
    TwitchEcho(TwitchPrivmsg, Vec<u64>),
    TwitchGlobalUserState(TwitchUserState),
    /// The channel, and the user's state in it.
    TwitchUserState(String, TwitchUserState),
    /// Any other message, as the line it was read from.
    Unknown(String),
}

/// The badges of a comma-separated list; malformed ones are left out.
pub open spec fn badges_in(s: Seq<u8>) -> Seq<(Seq<u8>, Seq<u8>)>
    decreases s.len(),
{
    let j = index_of(s, COMMA);
    let head = match badge_parts(s.subrange(0, j as int)) {
        Some(p) => seq![p],
        None => Seq::empty(),
    };
    if j < s.len() {
        head + badges_in(s.subrange(j + 1int, s.len() as int))
    } else {
        head
    }
}

/// The emote ranges of a `/`-separated list; malformed ones are left out.
pub open spec fn emote_ranges_in(s: Seq<u8>) -> Seq<(u64, Seq<(usize, usize)>)>
    decreases s.len(),
{
    let j = index_of(s, SLASH);
    let head = match emote_range_parts(s.subrange(0, j as int)) {
        Some(p) => seq![p],
        None => Seq::empty(),
    };
    if j < s.len() {
        head + emote_ranges_in(s.subrange(j + 1int, s.len() as int))
    } else {
        head
    }
}

/// The numbers of a comma-separated list; malformed ones are left out.
pub open spec fn numbers_in(s: Seq<u8>) -> Seq<u64>
    decreases s.len(),
{
    let j = index_of(s, COMMA);
    let head = match decimal_value(s.subrange(0, j as int), u64::MAX as nat) {
        Some(v) => seq![v as u64],
        None => Seq::empty(),
    };
    if j < s.len() {
        head + numbers_in(s.subrange(j + 1int, s.len() as int))
    } else {
        head
    }
}

/// The badges as byte strings.
pub open spec fn badges_wire(v: Seq<TwitchBadge>) -> Seq<(Seq<u8>, Seq<u8>)> {
    v.map_values(|b: TwitchBadge| (encode_utf8(b.set@), encode_utf8(b.version@)))
}

/// The emote ranges as ids and offsets.
pub open spec fn emote_ranges_view(v: Seq<TwitchEmoteRange>) -> Seq<(u64, Seq<(usize, usize)>)> {
    v.map_values(|e: TwitchEmoteRange| (e.id, e.ranges@))
}

/// The bytes of tag `key` of a message; none when it is absent.
pub open spec fn tag_bytes(m: Message, key: Seq<char>) -> Seq<u8> {
    match message_tag(m, key) {
        Some(v) => encode_utf8(v),
        None => Seq::empty(),
    }
}

/// The source of a message as text; empty when it has none.
pub open spec fn source_text(m: Message) -> Seq<char> {
    match m.from {
        Some(f) => f@,
        None => Seq::empty(),
    }
}

/// The `i`-th parameter of a message; empty when it has fewer.
pub open spec fn arg_text(m: Message, i: int) -> Seq<char> {
    if 0 <= i < m.args@.len() {
        m.args@[i]@
    } else {
        Seq::empty()
    }
}

/// The name to show: the display-name tag; when that is empty, the nick of
/// the source; when it is absent, nothing.
pub open spec fn display_name_of(m: Message) -> Seq<char> {
    match message_tag(m, "display-name"@) {
        None => Seq::empty(),
        Some(v) => if v.len() == 0 {
            name_of_prefix(source_text(m))
        } else {
            v
        },
    }
}

/// The colour to show: the color tag when it is well formed, else the colour
/// that the name hashes to.
pub open spec fn color_of(m: Message, name: Seq<char>) -> UserColor {
    match message_tag(m, "color"@) {
        Some(v) => match color_parts(encode_utf8(v)) {
            Some(c) => c,
            None => chat_color((name_hash(name) % 15) as int),
        },
        None => chat_color((name_hash(name) % 15) as int),
    }
}

/// The user id tag when it is a number, else zero.
pub open spec fn user_id_of(m: Message) -> u64 {
    match message_tag(m, "user-id"@) {
        Some(v) => match decimal_value(encode_utf8(v), u64::MAX as nat) {
            Some(x) => x as u64,
            None => 0,
        },
        None => 0,
    }
}

/// What a chat line says, read from its message.
pub open spec fn privmsg_of(p: TwitchPrivmsg, m: Message) -> bool {
    &&& p.name@ == display_name_of(m)
    &&& emote_ranges_view(p.emotes@) == emote_ranges_in(tag_bytes(m, "emotes"@))
    &&& badges_wire(p.badges@) == badges_in(tag_bytes(m, "badges"@))
    &&& p.color == color_of(m, p.name@)
    &&& p.to@ == arg_text(m, 0)
    &&& p.message@ == arg_text(m, 1)
}

/// What a user state says, read from its message.
pub open spec fn user_state_of(u: TwitchUserState, m: Message) -> bool {
    &&& u.display_name@ == display_name_of(m)
    &&& badges_wire(u.badges@) == badges_in(tag_bytes(m, "badges"@))
    &&& u.color == color_of(m, u.display_name@)
    &&& u.emote_sets@ == numbers_in(tag_bytes(m, "emote-sets"@))
    &&& u.user_id == user_id_of(m)
}

/// The bytes of a text.
fn text_bytes(v: &String) -> (r: &[u8])
    ensures
        r@ == encode_utf8(v@),
{
    v.as_str().as_bytes()
}

/// The value of tag `key` as bytes; none when it is absent.
fn tag_or_empty(m: &Message, key: &str) -> (r: Vec<u8>)
    ensures
        r@ == tag_bytes(*m, key@),
{
    match m.tag(key) {
        Some(v) => {
            let b = text_bytes(v);
            let mut out: Vec<u8> = Vec::new();
            out.extend_from_slice(b);
            assert(out@ =~= b@);
            out
        },
        None => Vec::new(),
    }
}

/// The badges of a comma-separated list.
fn badges_from(b: &Vec<u8>) -> (r: Vec<TwitchBadge>)
    requires
        valid_utf8(b@),
    ensures
        badges_wire(r@) == badges_in(b@),
{
    let n = b.len();
    let ghost whole = badges_in(b@);
    let mut out: Vec<TwitchBadge> = Vec::new();
    let mut pos: usize = 0;
    assert(b@.subrange(0, n as int) =~= b@);
    assert(badges_wire(out@) + whole =~= whole);
    loop
        invariant
            valid_utf8(b@),
            n == b@.len(),
            pos <= n,
            pos == 0 || b@[pos - 1] < 128,
            whole == badges_in(b@),
            badges_wire(out@) + badges_in(b@.subrange(pos as int, n as int)) == whole,
        decreases n - pos,
    {
        let ghost rest = b@.subrange(pos as int, n as int);
        let ghost before = badges_wire(out@);
        let j = find_byte(b.as_slice(), COMMA, pos, n);
        assert(rest.subrange(0, j - pos) =~= b@.subrange(pos as int, j as int));
        match badge_in(b.as_slice(), pos, j) {
            Ok(badge) => {
                let ghost w = (encode_utf8(badge.set@), encode_utf8(badge.version@));
                out.push(badge);
                assert(badges_wire(out@) =~= before + seq![w]);
            },
            Err(_) => {
                assert(badges_wire(out@) =~= before + Seq::empty());
            },
        }
        if j == n {
            return out;
        }
        assert(rest.subrange(j - pos + 1, rest.len() as int) =~= b@.subrange(j + 1int, n as int));
        assert(badges_wire(out@) + badges_in(b@.subrange(j + 1int, n as int)) =~= before
            + badges_in(rest));
        pos = j + 1;
    }
}

/// The emote ranges of a `/`-separated list.
fn emote_ranges_from(b: &Vec<u8>) -> (r: Vec<TwitchEmoteRange>)
    ensures
        emote_ranges_view(r@) == emote_ranges_in(b@),
{
    let n = b.len();
    let ghost whole = emote_ranges_in(b@);
    let mut out: Vec<TwitchEmoteRange> = Vec::new();
    let mut pos: usize = 0;
    assert(b@.subrange(0, n as int) =~= b@);
    assert(emote_ranges_view(out@) + whole =~= whole);
    loop
        invariant
            n == b@.len(),
            pos <= n,
            whole == emote_ranges_in(b@),
            emote_ranges_view(out@) + emote_ranges_in(b@.subrange(pos as int, n as int)) == whole,
        decreases n - pos,
    {
        let ghost rest = b@.subrange(pos as int, n as int);
        let ghost before = emote_ranges_view(out@);
        let j = find_byte(b.as_slice(), SLASH, pos, n);
        assert(rest.subrange(0, j - pos) =~= b@.subrange(pos as int, j as int));
        match emote_range_in(b.as_slice(), pos, j) {
            Ok(e) => {
                let ghost w = (e.id, e.ranges@);
                out.push(e);
                assert(emote_ranges_view(out@) =~= before + seq![w]);
            },
            Err(_) => {
                assert(emote_ranges_view(out@) =~= before + Seq::empty());
            },
        }
        if j == n {
            return out;
        }
        assert(rest.subrange(j - pos + 1, rest.len() as int) =~= b@.subrange(j + 1int, n as int));
        assert(emote_ranges_view(out@) + emote_ranges_in(b@.subrange(j + 1int, n as int))
            =~= before + emote_ranges_in(rest));
        pos = j + 1;
    }
}

/// The numbers of a comma-separated list.
fn numbers_from(b: &Vec<u8>) -> (r: Vec<u64>)
    ensures
        r@ == numbers_in(b@),
{
    let n = b.len();
    let ghost whole = numbers_in(b@);
    let mut out: Vec<u64> = Vec::new();
    let mut pos: usize = 0;
    assert(b@.subrange(0, n as int) =~= b@);
    assert(out@ + whole =~= whole);
    loop
        invariant
            n == b@.len(),
            pos <= n,
            whole == numbers_in(b@),
            out@ + numbers_in(b@.subrange(pos as int, n as int)) == whole,
        decreases n - pos,
    {
        let ghost rest = b@.subrange(pos as int, n as int);
        let ghost before = out@;
        let j = find_byte(b.as_slice(), COMMA, pos, n);
        assert(rest.subrange(0, j - pos) =~= b@.subrange(pos as int, j as int));
        match parse_decimal(b.as_slice(), pos, j, u64::MAX) {
            Some(v) => {
                out.push(v);
                assert(out@ =~= before + seq![v]);
            },
            None => {
                assert(out@ =~= before + Seq::empty());
            },
        }
        if j == n {
            return out;
        }
        assert(rest.subrange(j - pos + 1, rest.len() as int) =~= b@.subrange(j + 1int, n as int));
        assert(out@ + numbers_in(b@.subrange(j + 1int, n as int)) =~= before + numbers_in(rest));
        pos = j + 1;
    }
}

/// The name to show for a message.
fn display_name(m: &Message) -> (r: String)
    ensures
        r@ == display_name_of(*m),
{
    match m.tag("display-name") {
        None => String::new(),
        Some(v) => {
            if v.as_str().unicode_len() == 0 {
                match &m.from {
                    Some(f) => get_name_from_prefix(f.as_str()),
                    None => {
                        let r = get_name_from_prefix("");
                        proof {
                            reveal_strlit("");
                            assert(""@ =~= Seq::<char>::empty());
                        }
                        r
                    },
                }
            } else {
                v.clone()
            }
        },
    }
}

/// The colour to show for a message whose shown name is `name`.
fn color(m: &Message, name: &String) -> (r: UserColor)
    ensures
        r == color_of(*m, name@),
{
    match m.tag("color") {
        Some(v) => match UserColor::from_str(v.as_str()) {
            Ok(c) => c,
            Err(_) => UserColor::from_name(name.as_str()),
        },
        None => UserColor::from_name(name.as_str()),
    }
}

/// The user id of a message.
fn user_id(m: &Message) -> (r: u64)
    ensures
        r == user_id_of(*m),
{
    match m.tag("user-id") {
        Some(v) => {
            let b = text_bytes(v);
            assert(b@.subrange(0, b@.len() as int) =~= b@);
            match parse_decimal(b, 0, b.len(), u64::MAX) {
                Some(x) => x,
                None => 0,
            }
        },
        None => 0,
    }
}

/// The `i`-th parameter; empty when there are fewer.
fn arg(m: &Message, i: usize) -> (r: String)
    ensures
        r@ == arg_text(*m, i as int),
{
    if i < m.args.len() {
        m.args[i].clone()
    } else {
        String::new()
    }
}

impl Clone for TwitchUserState {
    fn clone(&self) -> (r: TwitchUserState) {
        TwitchUserState {
            badges: self.badges.clone(),
            color: self.color,
            display_name: self.display_name.clone(),
            emote_sets: self.emote_sets.clone(),
            user_id: self.user_id,
            user_type: (),
        }
    }
}

/// What a user state message says.
fn user_state(m: &Message) -> (r: TwitchUserState)
    ensures
        user_state_of(r, *m),
{
    let badges_tag = tag_or_empty(m, "badges");
    let badges = badges_from(&badges_tag);
    let sets_tag = tag_or_empty(m, "emote-sets");
    let emote_sets = numbers_from(&sets_tag);
    let display_name = display_name(m);
    let color = color(m, &display_name);
    let user_id = user_id(m);
    TwitchUserState { badges, color, display_name, emote_sets, user_id, user_type: () }
}

impl TwitchMessage {
    /// Reads a message as a chat event: a chat line, the user's global state,
    /// the user's state in a channel, or anything else as its line.
    pub fn from(msg: Message) -> (r: TwitchMessage)
        ensures
            msg.cmd@ == "PRIVMSG"@ ==> r is TwitchPrivmsg && privmsg_of(r->TwitchPrivmsg_0, msg),
            msg.cmd@ == "GLOBALUSERSTATE"@ ==> r is TwitchGlobalUserState && user_state_of(
                r->TwitchGlobalUserState_0,
                msg,
            ),
            msg.cmd@ == "USERSTATE"@ ==> r is TwitchUserState && r->TwitchUserState_0@ == arg_text(
                msg,
                0,
            ) && user_state_of(r->TwitchUserState_1, msg),
            msg.cmd@ != "PRIVMSG"@ && msg.cmd@ != "GLOBALUSERSTATE"@ && msg.cmd@ != "USERSTATE"@
                ==> r is Unknown && r->Unknown_0@ == msg.raw@,
    {
        proof {
            reveal_strlit("PRIVMSG");
            reveal_strlit("GLOBALUSERSTATE");
            reveal_strlit("USERSTATE");
            assert("PRIVMSG"@.len() == 7);
            assert("GLOBALUSERSTATE"@.len() == 15);
            assert("USERSTATE"@.len() == 9);
        }
        if msg.cmd == String::from_str("PRIVMSG") {
            let badges_tag = tag_or_empty(&msg, "badges");
            let badges = badges_from(&badges_tag);
            let emotes_tag = tag_or_empty(&msg, "emotes");
            let emotes = emote_ranges_from(&emotes_tag);
            let name = display_name(&msg);
            let color = color(&msg, &name);
            let to = arg(&msg, 0);
            let message = arg(&msg, 1);
            TwitchMessage::TwitchPrivmsg(TwitchPrivmsg { name, emotes, badges, color, to, message })
        } else if msg.cmd == String::from_str("GLOBALUSERSTATE") {
            TwitchMessage::TwitchGlobalUserState(user_state(&msg))
        } else if msg.cmd == String::from_str("USERSTATE") {
            let chan = arg(&msg, 0);
            TwitchMessage::TwitchUserState(chan, user_state(&msg))
        } else {
            TwitchMessage::Unknown(msg.raw)
        }
    }
}

} // verus!
