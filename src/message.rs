//! Protocol messages: the grammar of a line, its parser and its writer.
//!
//! A line is `[@k=v;k=v ][:source ]COMMAND[ p1 p2 ...][ :trailing]`. The
//! grammar is stated on the bytes of the line; every separator is an ASCII
//! byte, so each piece between separators is decoded as UTF-8 on its own.
//! Tag values are kept as written: backslash escapes in them are not decoded.
use vstd::prelude::*;
use vstd::utf8::*;
use vstd::string::*;

verus! {

broadcast use vstd::utf8::decode_utf8_encode_utf8, vstd::utf8::encode_utf8_decode_utf8,
    vstd::utf8::encode_utf8_valid_utf8;

pub const SPACE: u8 = 32;

pub const AT: u8 = 64;

pub const COLON: u8 = 58;

pub const SEMICOLON: u8 = 59;

pub const EQUALS: u8 = 61;

/// Index of the first `b` in `s`, or `s.len()` when there is none.
pub open spec fn index_of(s: Seq<u8>, b: u8) -> nat
    decreases s.len(),
{
    if s.len() == 0 {
        0
    } else if s[0] == b {
        0
    } else {
        1 + index_of(s.drop_first(), b)
    }
}

/// True when no byte of `s` is `b`.
pub open spec fn lacks(s: Seq<u8>, b: u8) -> bool {
    forall|j: int| 0 <= j < s.len() ==> s[j] != b
}

/// A line as the grammar sees it: every piece is a byte string.
pub struct WireMessage {
    pub tags: Option<Seq<(Seq<u8>, Seq<u8>)>>,
    pub source: Option<Seq<u8>>,
    pub command: Seq<u8>,
    pub params: Seq<Seq<u8>>,
}

/// Position of the first entry with key `k`, or `t.len()`.
pub open spec fn tag_position(t: Seq<(Seq<u8>, Seq<u8>)>, k: Seq<u8>) -> nat
    decreases t.len(),
{
    if t.len() == 0 {
        0
    } else if t[0].0 == k {
        0
    } else {
        1 + tag_position(t.drop_first(), k)
    }
}

/// Sets key `k` to `v`: an entry with that key keeps its place and takes the
/// new value, else the entry goes at the end.
pub open spec fn tag_insert(t: Seq<(Seq<u8>, Seq<u8>)>, k: Seq<u8>, v: Seq<u8>) -> Seq<
    (Seq<u8>, Seq<u8>),
> {
    let i = tag_position(t, k);
    if i < t.len() {
        t.update(i as int, (k, v))
    } else {
        t.push((k, v))
    }
}

/// One tag entry `key=value`, split at its first `=`; the key may not be empty.
pub open spec fn parse_tag(e: Seq<u8>) -> Option<(Seq<u8>, Seq<u8>)> {
    let i = index_of(e, EQUALS);
    if i == e.len() || i == 0 {
        None
    } else {
        Some((e.subrange(0, i as int), e.subrange(i + 1int, e.len() as int)))
    }
}

/// The entries of the `;`-separated tag block `s` set one by one on `acc`.
pub open spec fn parse_tag_block(acc: Seq<(Seq<u8>, Seq<u8>)>, s: Seq<u8>) -> Option<
    Seq<(Seq<u8>, Seq<u8>)>,
>
    decreases s.len(),
{
    let i = index_of(s, SEMICOLON);
    match parse_tag(s.subrange(0, i as int)) {
        None => None,
        Some(kv) => {
            let acc2 = tag_insert(acc, kv.0, kv.1);
            if i < s.len() {
                parse_tag_block(acc2, s.subrange(i + 1int, s.len() as int))
            } else {
                Some(acc2)
            }
        },
    }
}

/// The parameters after the command: space-separated tokens, the first one
/// that starts with `:` running, without its colon, to the end of the line.
pub open spec fn parse_params(s: Seq<u8>) -> Seq<Seq<u8>>
    decreases s.len(),
{
    if s.len() > 0 && s[0] == COLON {
        seq![s.drop_first()]
    } else {
        let i = index_of(s, SPACE);
        if i < s.len() {
            seq![s.subrange(0, i as int)] + parse_params(s.subrange(i + 1int, s.len() as int))
        } else {
            seq![s]
        }
    }
}

/// The command and what follows it. The command may not be empty.
pub open spec fn parse_command(
    tags: Option<Seq<(Seq<u8>, Seq<u8>)>>,
    source: Option<Seq<u8>>,
    s: Seq<u8>,
) -> Option<WireMessage> {
    let i = index_of(s, SPACE);
    if i == 0 {
        None
    } else if i == s.len() {
        Some(WireMessage { tags, source, command: s, params: Seq::empty() })
    } else {
        Some(
            WireMessage {
                tags,
                source,
                command: s.subrange(0, i as int),
                params: parse_params(s.subrange(i + 1int, s.len() as int)),
            },
        )
    }
}

/// The optional source prefix and what follows it.
pub open spec fn parse_after_tags(tags: Option<Seq<(Seq<u8>, Seq<u8>)>>, s: Seq<u8>) -> Option<
    WireMessage,
> {
    if s.len() > 0 && s[0] == COLON {
        let body = s.drop_first();
        let i = index_of(body, SPACE);
        if i == body.len() {
            None
        } else {
            parse_command(
                tags,
                Some(body.subrange(0, i as int)),
                body.subrange(i + 1int, body.len() as int),
            )
        }
    } else {
        parse_command(tags, None, s)
    }
}

/// The message that a line (without its CR LF) denotes, if it is well formed.
pub open spec fn parse_line(line: Seq<u8>) -> Option<WireMessage> {
    if line.len() > 0 && line[0] == AT {
        let body = line.drop_first();
        let i = index_of(body, SPACE);
        if i == body.len() {
            None
        } else {
            match parse_tag_block(Seq::empty(), body.subrange(0, i as int)) {
                None => None,
                Some(tags) => parse_after_tags(
                    Some(tags),
                    body.subrange(i + 1int, body.len() as int),
                ),
            }
        }
    } else {
        parse_after_tags(None, line)
    }
}

/// An index holding `b`, with no `b` before it, is `index_of`; so is the
/// length of a sequence without `b`.
pub proof fn lemma_index_of_unique(s: Seq<u8>, b: u8, i: int)
    requires
        0 <= i <= s.len(),
        forall|j: int| 0 <= j < i ==> s[j] != b,
        i < s.len() ==> s[i] == b,
    ensures
        index_of(s, b) == i,
    decreases s.len(),
{
    if s.len() > 0 && s[0] != b {
        lemma_index_of_unique(s.drop_first(), b, i - 1);
    }
}

/// A position whose entry has key `k`, with none before it, is `tag_position`.
pub proof fn lemma_tag_position_unique(t: Seq<(Seq<u8>, Seq<u8>)>, k: Seq<u8>, i: int)
    requires
        0 <= i <= t.len(),
        forall|j: int| 0 <= j < i ==> t[j].0 != k,
        i < t.len() ==> t[i].0 == k,
    ensures
        tag_position(t, k) == i,
    decreases t.len(),
{
    if t.len() > 0 && t[0].0 != k {
        let u = t.drop_first();
        assert forall|j: int| 0 <= j < i - 1 implies u[j].0 != k by {
            assert(u[j] == t[j + 1]);
        }
        lemma_tag_position_unique(u, k, i - 1);
    }
}

/// `tag_position` is the least position of an entry with key `k`.
pub proof fn lemma_tag_position(t: Seq<(Seq<u8>, Seq<u8>)>, k: Seq<u8>)
    ensures
        tag_position(t, k) <= t.len(),
        tag_position(t, k) < t.len() ==> t[tag_position(t, k) as int].0 == k,
        forall|j: int| 0 <= j < tag_position(t, k) ==> t[j].0 != k,
    decreases t.len(),
{
    if t.len() > 0 && t[0].0 != k {
        let u = t.drop_first();
        lemma_tag_position(u, k);
        assert forall|j: int| 0 < j < tag_position(t, k) implies t[j].0 != k by {
            assert(t[j] == u[j - 1]);
        }
    }
}

/// A piece of valid UTF-8 cut out after and before ASCII bytes is valid UTF-8.
pub proof fn lemma_valid_piece(s: Seq<u8>, i: int, j: int)
    requires
        valid_utf8(s),
        0 <= i <= j <= s.len(),
        i == 0 || s[i - 1] < 128,
        j == s.len() || s[j] < 128,
    ensures
        valid_utf8(s.subrange(i, j)),
{
    if j == s.len() {
        vstd::utf8::is_char_boundary_start_end_of_seq(s);
    } else {
        vstd::utf8::is_char_boundary_iff_not_is_continuation_byte(s, j);
    }
    vstd::utf8::valid_utf8_split(s, j);
    let t = s.subrange(0, j);
    if i > 0 {
        assert(t[i - 1] < 128);
        vstd::utf8::is_char_boundary_iff_not_is_continuation_byte(t, i - 1);
        vstd::utf8::valid_utf8_split(t, i - 1);
        let u = t.subrange(i - 1, t.len() as int);
        assert(u[0] < 128);
        assert(pop_first_scalar(u) =~= s.subrange(i, j));
    } else {
        assert(t =~= s.subrange(i, j));
    }
}

/// Relies on `std::str::from_utf8`: it accepts exactly the valid UTF-8 byte
/// strings, and the text it gives has those bytes as its encoding.
#[verifier::external_body]
fn utf8_to_string(b: &[u8]) -> (r: Option<String>)
    ensures
        r is Some <==> valid_utf8(b@),
        r is Some ==> r->Some_0@ == decode_utf8(b@),
{
    std::str::from_utf8(b).ok().map(|s| s.to_owned())
}

/// Index of the first `b` in `line[from..to]`, or `to`.
pub(crate) fn find_byte(line: &[u8], b: u8, from: usize, to: usize) -> (r: usize)
    requires
        from <= to <= line@.len(),
    ensures
        r == from + index_of(line@.subrange(from as int, to as int), b),
        from <= r <= to,
        r < to ==> line@[r as int] == b,
        forall|j: int| from <= j < r ==> line@[j] != b,
{
    let mut i = from;
    while i < to && line[i] != b
        invariant
            to <= line@.len(),
            from <= i <= to,
            forall|j: int| from <= j < i ==> line@[j] != b,
        decreases to - i,
    {
        i = i + 1;
    }
    proof {
        let s = line@.subrange(from as int, to as int);
        lemma_index_of_unique(s, b, i - from);
    }
    i
}

/// The text of the bytes `from..to` of a valid UTF-8 line, cut at ASCII bytes.
pub(crate) fn decode_piece(line: &[u8], from: usize, to: usize) -> (r: String)
    requires
        valid_utf8(line@),
        from <= to <= line@.len(),
        from == 0 || line@[from - 1] < 128,
        to == line@.len() || line@[to as int] < 128,
    ensures
        encode_utf8(r@) == line@.subrange(from as int, to as int),
{
    proof {
        lemma_valid_piece(line@, from as int, to as int);
    }
    let piece = vstd::slice::slice_subrange(line, from, to);
    match utf8_to_string(piece) {
        Some(s) => s,
        None => String::new(),
    }
}

/// A protocol message.
#[derive(Debug, PartialEq, Eq)]
pub struct Message {
    /// The tags in the order of their first appearance; each key once.
    pub tags: Option<Vec<(String, String)>>,
    /// The source prefix, without its colon.
    pub from: Option<String>,
    /// The command.
    pub cmd: String,
    /// The parameters in wire order; the last may hold spaces.
    pub args: Vec<String>,
    /// The line the message was read from, without its CR LF; empty for a
    /// message built otherwise.
    pub raw: String,
}

/// The tag entries as byte strings.
pub open spec fn tags_wire(t: Seq<(String, String)>) -> Seq<(Seq<u8>, Seq<u8>)> {
    t.map_values(|p: (String, String)| (encode_utf8(p.0@), encode_utf8(p.1@)))
}

/// The parameters as byte strings.
pub open spec fn params_wire(a: Seq<String>) -> Seq<Seq<u8>> {
    a.map_values(|s: String| encode_utf8(s@))
}

impl Message {
    /// The message as the grammar sees it.
    pub open spec fn wire(&self) -> WireMessage {
        WireMessage {
            tags: match self.tags {
                Some(t) => Some(tags_wire(t@)),
                None => None,
            },
            source: match self.from {
                Some(f) => Some(encode_utf8(f@)),
                None => None,
            },
            command: encode_utf8(self.cmd@),
            params: params_wire(self.args@),
        }
    }
}

/// Sets tag `k` to `v`, in place when the key is there already.
fn insert_tag(tags: &mut Vec<(String, String)>, k: String, v: String)
    ensures
        tags_wire(final(tags)@) == tag_insert(
            tags_wire(old(tags)@),
            encode_utf8(k@),
            encode_utf8(v@),
        ),
{
    let ghost t = tags_wire(tags@);
    let ghost ek = encode_utf8(k@);
    let n = tags.len();
    let mut i: usize = 0;
    while i < n
        invariant
            n == tags@.len(),
            i <= n,
            t == tags_wire(tags@),
            tags@ == old(tags)@,
            ek == encode_utf8(k@),
            forall|j: int| 0 <= j < i ==> t[j].0 != ek,
        decreases n - i,
    {
        let same = tags[i].0 == k;
        proof {
            let e = tags@[i as int];
            assert(t[i as int] == (encode_utf8(e.0@), encode_utf8(e.1@)));
            assert(decode_utf8(encode_utf8(e.0@)) == e.0@);
            assert(decode_utf8(encode_utf8(k@)) == k@);
        }
        if same {
            proof {
                lemma_tag_position_unique(t, ek, i as int);
            }
            tags.set(i, (k, v));
            assert(tags_wire(tags@) =~= t.update(i as int, (ek, encode_utf8(v@))));
            return;
        }
        assert(t[i as int].0 != ek);
        i = i + 1;
    }
    proof {
        lemma_tag_position_unique(t, ek, n as int);
    }
    tags.push((k, v));
    assert(tags_wire(tags@) =~= t.push((ek, encode_utf8(v@))));
}

/// Parses the tag block `line[from..to]`, which follows an ASCII byte.
fn parse_tags(line: &[u8], from: usize, to: usize) -> (r: Option<Vec<(String, String)>>)
    requires
        valid_utf8(line@),
        1 <= from <= to <= line@.len(),
        line@[from - 1] < 128,
        to == line@.len() || line@[to as int] < 128,
    ensures
        r is Some <==> parse_tag_block(Seq::empty(), line@.subrange(from as int, to as int)) is Some,
        r is Some ==> parse_tag_block(Seq::empty(), line@.subrange(from as int, to as int)) == Some(
            tags_wire(r->Some_0@),
        ),
{
    let ghost whole = parse_tag_block(Seq::empty(), line@.subrange(from as int, to as int));
    let mut acc: Vec<(String, String)> = Vec::new();
    let mut pos = from;
    assert(tags_wire(acc@) =~= Seq::empty());
    loop
        invariant
            valid_utf8(line@),
            1 <= from <= pos <= to <= line@.len(),
            line@[pos - 1] < 128,
            to == line@.len() || line@[to as int] < 128,
            parse_tag_block(tags_wire(acc@), line@.subrange(pos as int, to as int)) == whole,
            whole == parse_tag_block(Seq::empty(), line@.subrange(from as int, to as int)),
        decreases to - pos,
    {
        let ghost s = line@.subrange(pos as int, to as int);
        let semi = find_byte(line, SEMICOLON, pos, to);
        let eq = find_byte(line, EQUALS, pos, semi);
        proof {
            assert(s.subrange(0, (semi - pos) as int) =~= line@.subrange(pos as int, semi as int));
            let e = line@.subrange(pos as int, semi as int);
            assert(e.subrange(0, (eq - pos) as int) =~= line@.subrange(pos as int, eq as int));
            if eq < semi {
                assert(e.subrange((eq - pos) + 1int, e.len() as int) =~= line@.subrange(
                    eq + 1int,
                    semi as int,
                ));
            }
            if semi < to {
                assert(s.subrange((semi - pos) + 1int, s.len() as int) =~= line@.subrange(
                    semi + 1int,
                    to as int,
                ));
            }
        }
        if eq == semi || eq == pos {
            assert(parse_tag(line@.subrange(pos as int, semi as int)) is None);
            assert(parse_tag_block(tags_wire(acc@), s) is None);
            return None;
        }
        let key = decode_piece(line, pos, eq);
        let value = decode_piece(line, eq + 1, semi);
        insert_tag(&mut acc, key, value);
        if semi == to {
            return Some(acc);
        }
        pos = semi + 1;
    }
}

/// Parses the parameters `line[from..]`, which follow an ASCII byte.
fn parse_args(line: &[u8], from: usize) -> (r: Vec<String>)
    requires
        valid_utf8(line@),
        1 <= from <= line@.len(),
        line@[from - 1] < 128,
    ensures
        params_wire(r@) == parse_params(line@.subrange(from as int, line@.len() as int)),
{
    let n = line.len();
    let ghost whole = parse_params(line@.subrange(from as int, n as int));
    let mut out: Vec<String> = Vec::new();
    let mut pos = from;
    assert(params_wire(out@) + whole =~= whole);
    loop
        invariant
            valid_utf8(line@),
            n == line@.len(),
            1 <= from <= pos <= n,
            line@[pos - 1] < 128,
            params_wire(out@) + parse_params(line@.subrange(pos as int, n as int)) == whole,
            whole == parse_params(line@.subrange(from as int, n as int)),
        decreases n - pos,
    {
        let ghost s = line@.subrange(pos as int, n as int);
        let ghost before = params_wire(out@);
        if pos < n && line[pos] == COLON {
            let last = decode_piece(line, pos + 1, n);
            out.push(last);
            assert(s.drop_first() =~= line@.subrange(pos + 1int, n as int));
            assert(parse_params(s) == seq![s.drop_first()]);
            assert(params_wire(out@) =~= before + parse_params(s));
            return out;
        }
        let sp = find_byte(line, SPACE, pos, n);
        let token = decode_piece(line, pos, sp);
        out.push(token);
        assert(s.subrange(0, (sp - pos) as int) =~= line@.subrange(pos as int, sp as int));
        if sp == n {
            assert(s =~= line@.subrange(pos as int, sp as int));
            assert(parse_params(s) == seq![s]);
            assert(params_wire(out@) =~= before + parse_params(s));
            return out;
        }
        assert(s.subrange((sp - pos) + 1int, s.len() as int) =~= line@.subrange(
            sp + 1int,
            n as int,
        ));
        assert(params_wire(out@) + parse_params(line@.subrange(sp + 1int, n as int)) =~= before
            + parse_params(s));
        pos = sp + 1;
    }
}

/// The tags as byte strings, if there are any.
pub open spec fn opt_tags_wire(t: Option<Vec<(String, String)>>) -> Option<
    Seq<(Seq<u8>, Seq<u8>)>,
> {
    match t {
        Some(v) => Some(tags_wire(v@)),
        None => None,
    }
}

/// The text as a byte string, if there is one.
pub open spec fn opt_text_wire(t: Option<String>) -> Option<Seq<u8>> {
    match t {
        Some(s) => Some(encode_utf8(s@)),
        None => None,
    }
}

/// Parses the command and parameters `line[pos..]`.
fn parse_command_part(
    line: &[u8],
    pos: usize,
    tags: Option<Vec<(String, String)>>,
    from: Option<String>,
) -> (r: Result<Message, crate::error::ClientError>)
    requires
        valid_utf8(line@),
        pos <= line@.len(),
        pos == 0 || line@[pos - 1] < 128,
    ensures
        r is Ok <==> parse_command(
            opt_tags_wire(tags),
            opt_text_wire(from),
            line@.subrange(pos as int, line@.len() as int),
        ) is Some,
        r is Ok ==> parse_command(
            opt_tags_wire(tags),
            opt_text_wire(from),
            line@.subrange(pos as int, line@.len() as int),
        ) == Some(r->Ok_0.wire()),
        r is Err ==> r->Err_0 is ParsingError,
{
    let n = line.len();
    let ghost cmd_part = line@.subrange(pos as int, n as int);
    let sp = find_byte(line, SPACE, pos, n);
    if sp == pos {
        return Err(crate::error::ClientError::ParsingError);
    }
    let cmd = decode_piece(line, pos, sp);
    let args = if sp == n {
        assert(cmd_part =~= line@.subrange(pos as int, sp as int));
        let v: Vec<String> = Vec::new();
        assert(params_wire(v@) =~= Seq::empty());
        v
    } else {
        assert(cmd_part.subrange(0, sp - pos) =~= line@.subrange(pos as int, sp as int));
        assert(cmd_part.subrange(sp - pos + 1, cmd_part.len() as int) =~= line@.subrange(
            sp + 1int,
            n as int,
        ));
        parse_args(line, sp + 1)
    };
    Ok(Message { tags, from, cmd, args, raw: String::new() })
}

/// Parses the optional source and the rest, `line[pos..]`.
fn parse_source_part(line: &[u8], pos: usize, tags: Option<Vec<(String, String)>>) -> (r: Result<
    Message,
    crate::error::ClientError,
>)
    requires
        valid_utf8(line@),
        pos <= line@.len(),
        pos == 0 || line@[pos - 1] < 128,
    ensures
        r is Ok <==> parse_after_tags(
            opt_tags_wire(tags),
            line@.subrange(pos as int, line@.len() as int),
        ) is Some,
        r is Ok ==> parse_after_tags(
            opt_tags_wire(tags),
            line@.subrange(pos as int, line@.len() as int),
        ) == Some(r->Ok_0.wire()),
        r is Err ==> r->Err_0 is ParsingError,
{
    let n = line.len();
    let ghost rest = line@.subrange(pos as int, n as int);
    if pos < n && line[pos] == COLON {
        let sp = find_byte(line, SPACE, pos + 1, n);
        let ghost body = rest.drop_first();
        assert(body =~= line@.subrange(pos + 1int, n as int));
        if sp == n {
            return Err(crate::error::ClientError::ParsingError);
        }
        assert(body.subrange(0, sp - pos - 1) =~= line@.subrange(pos + 1int, sp as int));
        assert(body.subrange(sp - pos - 1 + 1, body.len() as int) =~= line@.subrange(
            sp + 1int,
            n as int,
        ));
        let f = decode_piece(line, pos + 1, sp);
        parse_command_part(line, sp + 1, tags, Some(f))
    } else {
        parse_command_part(line, pos, tags, None)
    }
}

/// Parses one line, without its CR LF, into a message.
pub fn parse_message(line: &[u8]) -> (r: Result<Message, crate::error::ClientError>)
    ensures
        r is Ok <==> valid_utf8(line@) && parse_line(line@) is Some,
        r is Ok ==> parse_line(line@) == Some(r->Ok_0.wire()),
        r is Ok ==> r->Ok_0.raw@ == decode_utf8(line@),
        r is Err ==> r->Err_0 is ParsingError,
{
    let raw = match utf8_to_string(line) {
        Some(text) => text,
        None => {
            return Err(crate::error::ClientError::ParsingError);
        },
    };
    let n = line.len();
    let parsed = if n > 0 && line[0] == AT {
        let sp = find_byte(line, SPACE, 1, n);
        let ghost body = line@.drop_first();
        assert(body =~= line@.subrange(1, n as int));
        if sp == n {
            return Err(crate::error::ClientError::ParsingError);
        }
        assert(body.subrange(0, sp - 1) =~= line@.subrange(1, sp as int));
        assert(body.subrange(sp - 1 + 1, body.len() as int) =~= line@.subrange(
            sp + 1int,
            n as int,
        ));
        match parse_tags(line, 1, sp) {
            None => Err(crate::error::ClientError::ParsingError),
            Some(t) => parse_source_part(line, sp + 1, Some(t)),
        }
    } else {
        assert(line@.subrange(0, n as int) =~= line@);
        parse_source_part(line, 0, None)
    };
    match parsed {
        Ok(mut m) => {
            m.raw = raw;
            Ok(m)
        },
        Err(e) => Err(e),
    }
}

/// The tag entries from the `k`-th on, written `key=value` and joined by `;`.
pub open spec fn tags_text(t: Seq<(Seq<u8>, Seq<u8>)>, k: int) -> Seq<u8>
    decreases t.len() - k,
{
    if k < 0 || k >= t.len() {
        Seq::empty()
    } else {
        let e = t[k].0 + seq![EQUALS] + t[k].1;
        if k + 1 < t.len() {
            e + seq![SEMICOLON] + tags_text(t, k + 1)
        } else {
            e
        }
    }
}

/// The parameters from the `k`-th on, each after a space; the last one after
/// a space and a colon.
pub open spec fn params_text(p: Seq<Seq<u8>>, k: int) -> Seq<u8>
    decreases p.len() - k,
{
    if k < 0 || k >= p.len() {
        Seq::empty()
    } else if k + 1 == p.len() {
        seq![SPACE, COLON] + p[k]
    } else {
        seq![SPACE] + p[k] + params_text(p, k + 1)
    }
}

/// The line that writes a message, without its CR LF.
pub open spec fn line_of(w: WireMessage) -> Seq<u8> {
    let t = match w.tags {
        Some(t) => seq![AT] + tags_text(t, 0) + seq![SPACE],
        None => Seq::empty(),
    };
    let s = match w.source {
        Some(s) => seq![COLON] + s + seq![SPACE],
        None => Seq::empty(),
    };
    t + s + w.command + params_text(w.params, 0)
}

/// A message that its line denotes again: tags, if present, are not empty,
/// have non-empty keys that occur once, and no separator where it would cut
/// them; the source and the command hold no space; the command is not empty
/// and does not start like tags or a source; a parameter before the last one
/// holds no space and does not start with a colon.
pub open spec fn well_formed(w: WireMessage) -> bool {
    &&& match w.tags {
        Some(t) => {
            &&& t.len() > 0
            &&& forall|i: int|
                0 <= i < t.len() ==> {
                    &&& #[trigger] t[i].0.len() > 0
                    &&& lacks(t[i].0, EQUALS)
                    &&& lacks(t[i].0, SEMICOLON)
                    &&& lacks(t[i].0, SPACE)
                    &&& lacks(t[i].1, SEMICOLON)
                    &&& lacks(t[i].1, SPACE)
                }
            &&& forall|i: int, j: int| 0 <= i < j < t.len() ==> t[i].0 != t[j].0
        },
        None => true,
    }
    &&& match w.source {
        Some(s) => lacks(s, SPACE),
        None => true,
    }
    &&& w.command.len() > 0
    &&& lacks(w.command, SPACE)
    &&& w.command[0] != AT
    &&& w.command[0] != COLON
    &&& forall|i: int|
        0 <= i < w.params.len() - 1 ==> lacks(#[trigger] w.params[i], SPACE) && !(
        w.params[i].len() > 0 && w.params[i][0] == COLON)
}

/// A byte string without `b`, followed by `b` or by nothing, has its first `b`
/// right after it.
pub proof fn lemma_index_of_concat(a: Seq<u8>, b: Seq<u8>, x: u8)
    requires
        lacks(a, x),
        b.len() == 0 || b[0] == x,
    ensures
        index_of(a + b, x) == a.len(),
{
    lemma_index_of_unique(a + b, x, a.len() as int);
}

/// The parameters written out are parsed back.
proof fn lemma_params_round_trip(p: Seq<Seq<u8>>, k: int)
    requires
        0 <= k < p.len(),
        forall|i: int|
            0 <= i < p.len() - 1 ==> lacks(#[trigger] p[i], SPACE) && !(p[i].len() > 0 && p[i][0]
                == COLON),
    ensures
        params_text(p, k).len() > 0,
        params_text(p, k)[0] == SPACE,
        parse_params(params_text(p, k).drop_first()) == p.subrange(k, p.len() as int),
    decreases p.len() - k,
{
    let s = params_text(p, k).drop_first();
    if k + 1 == p.len() {
        assert(s =~= seq![COLON] + p[k]);
        assert(s.drop_first() =~= p[k]);
        assert(p.subrange(k, p.len() as int) =~= seq![p[k]]);
    } else {
        lemma_params_round_trip(p, k + 1);
        let rest = params_text(p, k + 1);
        assert(s =~= p[k] + rest);
        lemma_index_of_concat(p[k], rest, SPACE);
        assert(s.subrange(0, p[k].len() as int) =~= p[k]);
        assert(s.subrange(p[k].len() + 1int, s.len() as int) =~= rest.drop_first());
        assert(p.subrange(k, p.len() as int) =~= seq![p[k]] + p.subrange(k + 1, p.len() as int));
    }
}

/// The tag entries written out hold no space.
proof fn lemma_tags_text_no_space(t: Seq<(Seq<u8>, Seq<u8>)>, k: int)
    requires
        0 <= k,
        forall|i: int|
            0 <= i < t.len() ==> lacks(#[trigger] t[i].0, SPACE) && lacks(t[i].1, SPACE),
    ensures
        lacks(tags_text(t, k), SPACE),
    decreases t.len() - k,
{
    if k < t.len() {
        lemma_tags_text_no_space(t, k + 1);
        let e = t[k].0 + seq![EQUALS] + t[k].1;
        assert(lacks(t[k].0, SPACE) && lacks(t[k].1, SPACE));
        assert(lacks(e, SPACE));
        if k + 1 < t.len() {
            assert(lacks(e + seq![SEMICOLON] + tags_text(t, k + 1), SPACE));
        }
    }
}

/// The tag entries written out are parsed back onto the entries before them.
proof fn lemma_tags_round_trip(t: Seq<(Seq<u8>, Seq<u8>)>, k: int)
    requires
        0 <= k < t.len(),
        forall|i: int|
            0 <= i < t.len() ==> {
                &&& #[trigger] t[i].0.len() > 0
                &&& lacks(t[i].0, EQUALS)
                &&& lacks(t[i].0, SEMICOLON)
                &&& lacks(t[i].0, SPACE)
                &&& lacks(t[i].1, SEMICOLON)
                &&& lacks(t[i].1, SPACE)
            },
        forall|i: int, j: int| 0 <= i < j < t.len() ==> t[i].0 != t[j].0,
    ensures
        parse_tag_block(t.subrange(0, k), tags_text(t, k)) == Some(t),
    decreases t.len() - k,
{
    let key = t[k].0;
    let value = t[k].1;
    let e = key + seq![EQUALS] + value;
    let text = tags_text(t, k);
    assert(t[k].0.len() > 0);
    // The entry is the text up to the first `;`.
    assert(lacks(e, SEMICOLON));
    if k + 1 < t.len() {
        assert(text =~= e + (seq![SEMICOLON] + tags_text(t, k + 1)));
        lemma_index_of_concat(e, seq![SEMICOLON] + tags_text(t, k + 1), SEMICOLON);
        assert(text.subrange(0, e.len() as int) =~= e);
        assert(text.subrange(e.len() + 1int, text.len() as int) =~= tags_text(t, k + 1));
    } else {
        assert(text == e);
        lemma_index_of_concat(e, Seq::empty(), SEMICOLON);
        assert(e + Seq::<u8>::empty() =~= e);
        assert(text.subrange(0, e.len() as int) =~= e);
    }
    // The entry splits into its key and value.
    assert(e =~= key + (seq![EQUALS] + value));
    lemma_index_of_concat(key, seq![EQUALS] + value, EQUALS);
    assert(e.subrange(0, key.len() as int) =~= key);
    assert(e.subrange(key.len() + 1int, e.len() as int) =~= value);
    assert(parse_tag(e) == Some((key, value)));
    // The key is new, so the entry goes at the end.
    let before = t.subrange(0, k);
    assert forall|j: int| 0 <= j < k implies before[j].0 != key by {
        assert(before[j] == t[j]);
    }
    lemma_tag_position_unique(before, key, k);
    assert(tag_insert(before, key, value) =~= t.subrange(0, k + 1));
    if k + 1 < t.len() {
        lemma_tags_round_trip(t, k + 1);
    } else {
        assert(t.subrange(0, k + 1) =~= t);
    }
}

/// The command and parameters written out are parsed back.
proof fn lemma_command_round_trip(w: WireMessage)
    requires
        well_formed(w),
    ensures
        parse_command(w.tags, w.source, w.command + params_text(w.params, 0)) == Some(w),
{
    let cmd_part = w.command + params_text(w.params, 0);
    if w.params.len() > 0 {
        lemma_params_round_trip(w.params, 0);
        assert(w.params.subrange(0, w.params.len() as int) =~= w.params);
    } else {
        assert(params_text(w.params, 0) =~= Seq::<u8>::empty());
    }
    lemma_index_of_concat(w.command, params_text(w.params, 0), SPACE);
    let i = index_of(cmd_part, SPACE);
    assert(i == w.command.len());
    if w.params.len() > 0 {
        assert(cmd_part.subrange(0, w.command.len() as int) =~= w.command);
        assert(cmd_part.subrange(w.command.len() + 1int, cmd_part.len() as int)
            =~= params_text(w.params, 0).drop_first());
        assert(parse_params(cmd_part.subrange(i + 1int, cmd_part.len() as int)) == w.params);
    } else {
        assert(cmd_part =~= w.command);
        assert(w.params =~= Seq::<Seq<u8>>::empty());
    }
}

/// The source and what follows it, written out, are parsed back.
proof fn lemma_source_round_trip(w: WireMessage)
    requires
        well_formed(w),
    ensures
        parse_after_tags(
            w.tags,
            match w.source {
                Some(s) => seq![COLON] + s + seq![SPACE],
                None => Seq::empty(),
            } + w.command + params_text(w.params, 0),
        ) == Some(w),
{
    lemma_command_round_trip(w);
    let cmd_part = w.command + params_text(w.params, 0);
    match w.source {
        Some(s) => {
            let after_tags = seq![COLON] + s + seq![SPACE] + w.command + params_text(w.params, 0);
            let body = after_tags.drop_first();
            assert(body =~= s + (seq![SPACE] + cmd_part));
            lemma_index_of_concat(s, seq![SPACE] + cmd_part, SPACE);
            assert(body.subrange(0, s.len() as int) =~= s);
            assert(body.subrange(s.len() + 1int, body.len() as int) =~= cmd_part);
        },
        None => {
            assert(Seq::<u8>::empty() + w.command + params_text(w.params, 0) =~= cmd_part);
            assert(cmd_part[0] == w.command[0]);
        },
    }
}

/// A tag block written out in front of the rest of a line is parsed back.
proof fn lemma_tag_prefix_round_trip(t: Seq<(Seq<u8>, Seq<u8>)>, rest: Seq<u8>)
    requires
        t.len() > 0,
        forall|i: int|
            0 <= i < t.len() ==> {
                &&& #[trigger] t[i].0.len() > 0
                &&& lacks(t[i].0, EQUALS)
                &&& lacks(t[i].0, SEMICOLON)
                &&& lacks(t[i].0, SPACE)
                &&& lacks(t[i].1, SEMICOLON)
                &&& lacks(t[i].1, SPACE)
            },
        forall|i: int, j: int| 0 <= i < j < t.len() ==> t[i].0 != t[j].0,
    ensures
        parse_line(seq![AT] + tags_text(t, 0) + seq![SPACE] + rest) == parse_after_tags(
            Some(t),
            rest,
        ),
{
    let line = seq![AT] + tags_text(t, 0) + seq![SPACE] + rest;
    assert forall|i: int| 0 <= i < t.len() implies lacks(#[trigger] t[i].0, SPACE) && lacks(
        t[i].1,
        SPACE,
    ) by {
        assert(t[i].0.len() > 0);
    }
    lemma_tags_text_no_space(t, 0);
    lemma_tags_round_trip(t, 0);
    assert(t.subrange(0, 0) =~= Seq::<(Seq<u8>, Seq<u8>)>::empty());
    let body = line.drop_first();
    assert(body =~= tags_text(t, 0) + (seq![SPACE] + rest));
    lemma_index_of_concat(tags_text(t, 0), seq![SPACE] + rest, SPACE);
    assert(body.subrange(0, tags_text(t, 0).len() as int) =~= tags_text(t, 0));
    assert(body.subrange(tags_text(t, 0).len() + 1int, body.len() as int) =~= rest);
}

/// Writing a well-formed message as a line and parsing the line gives the
/// message back. (Equal byte strings decode to equal text, so the parsed
/// message holds the same strings.)
pub proof fn lemma_parse_round_trip(w: WireMessage)
    requires
        well_formed(w),
    ensures
        parse_line(line_of(w)) == Some(w),
{
    let line = line_of(w);
    let after_tags = match w.source {
        Some(s) => seq![COLON] + s + seq![SPACE],
        None => Seq::empty(),
    } + w.command + params_text(w.params, 0);
    lemma_source_round_trip(w);
    match w.tags {
        Some(t) => {
            assert(line =~= seq![AT] + tags_text(t, 0) + seq![SPACE] + after_tags);
            lemma_tag_prefix_round_trip(t, after_tags);
        },
        None => {
            assert(line =~= after_tags);
            match w.source {
                Some(s) => {
                    assert(line[0] == COLON);
                },
                None => {
                    assert(line[0] == w.command[0]);
                },
            }
        },
    }
}

/// A single ASCII byte is valid UTF-8.
proof fn lemma_ascii_valid(b: u8)
    requires
        b < 128,
    ensures
        valid_utf8(seq![b]),
{
    let s = seq![b];
    assert(pop_first_scalar(s) =~= Seq::<u8>::empty());
    reveal_with_fuel(valid_utf8, 2);
}

/// Valid UTF-8 strings put end to end are valid UTF-8.
proof fn lemma_valid_concat3(a: Seq<u8>, b: Seq<u8>, c: Seq<u8>)
    requires
        valid_utf8(a),
        valid_utf8(b),
        valid_utf8(c),
    ensures
        valid_utf8(a + b + c),
{
    vstd::utf8::valid_utf8_concat(a, b);
    vstd::utf8::valid_utf8_concat(a + b, c);
}

/// The written tag entries of texts are valid UTF-8.
proof fn lemma_tags_text_valid(t: Seq<(String, String)>, k: int)
    requires
        0 <= k,
    ensures
        valid_utf8(tags_text(tags_wire(t), k)),
    decreases t.len() - k,
{
    broadcast use vstd::utf8::valid_utf8_concat;

    let w = tags_wire(t);
    if k < t.len() {
        lemma_tags_text_valid(t, k + 1);
        lemma_ascii_valid(EQUALS);
        lemma_ascii_valid(SEMICOLON);
        assert(w[k] == (encode_utf8(t[k].0@), encode_utf8(t[k].1@)));
        let e = w[k].0 + seq![EQUALS] + w[k].1;
        lemma_valid_concat3(w[k].0, seq![EQUALS], w[k].1);
        if k + 1 < t.len() {
            lemma_valid_concat3(e, seq![SEMICOLON], tags_text(w, k + 1));
        }
    } else {
        assert(valid_utf8(Seq::<u8>::empty()));
    }
}

/// The written parameters of texts are valid UTF-8.
proof fn lemma_params_text_valid(p: Seq<String>, k: int)
    requires
        0 <= k,
    ensures
        valid_utf8(params_text(params_wire(p), k)),
    decreases p.len() - k,
{
    broadcast use vstd::utf8::valid_utf8_concat;

    let w = params_wire(p);
    if k < p.len() {
        lemma_params_text_valid(p, k + 1);
        lemma_ascii_valid(SPACE);
        lemma_ascii_valid(COLON);
        assert(w[k] == encode_utf8(p[k]@));
        assert(seq![SPACE, COLON] + w[k] =~= seq![SPACE] + seq![COLON] + w[k]);
        lemma_valid_concat3(seq![SPACE], seq![COLON], w[k]);
        lemma_valid_concat3(seq![SPACE], w[k], params_text(w, k + 1));
    } else {
        assert(valid_utf8(Seq::<u8>::empty()));
    }
}

/// The line that writes a message of texts is valid UTF-8.
pub proof fn lemma_line_valid(m: Message)
    ensures
        valid_utf8(line_of(m.wire())),
{
    broadcast use vstd::utf8::valid_utf8_concat;

    let w = m.wire();
    lemma_ascii_valid(AT);
    lemma_ascii_valid(COLON);
    lemma_ascii_valid(SPACE);
    lemma_params_text_valid(m.args@, 0);
    assert(valid_utf8(Seq::<u8>::empty()));
    let t = match w.tags {
        Some(t) => seq![AT] + tags_text(t, 0) + seq![SPACE],
        None => Seq::empty(),
    };
    let s = match w.source {
        Some(s) => seq![COLON] + s + seq![SPACE],
        None => Seq::empty(),
    };
    match m.tags {
        Some(tv) => {
            lemma_tags_text_valid(tv@, 0);
            lemma_valid_concat3(seq![AT], tags_text(w.tags->Some_0, 0), seq![SPACE]);
        },
        None => {},
    }
    match w.source {
        Some(src) => {
            lemma_valid_concat3(seq![COLON], src, seq![SPACE]);
        },
        None => {},
    }
    lemma_valid_concat3(t, s, w.command);
    vstd::utf8::valid_utf8_concat(t + s + w.command, params_text(w.params, 0));
}

/// Writing a well-formed message as a line and parsing that line with
/// `parse_message` succeeds and gives a message equal to it.
pub proof fn lemma_message_round_trip(m: Message)
    requires
        well_formed(m.wire()),
    ensures
        valid_utf8(line_of(m.wire())),
        parse_line(line_of(m.wire())) == Some(m.wire()),
{
    lemma_line_valid(m);
    lemma_parse_round_trip(m.wire());
}

/// Appends the bytes of `s`.
fn push_text(out: &mut Vec<u8>, s: &String)
    ensures
        final(out)@ == old(out)@ + encode_utf8(s@),
{
    let b = s.as_str().as_bytes();
    out.extend_from_slice(b);
    assert(out@ =~= old(out)@ + encode_utf8(s@));
}

impl Message {
    /// The line that writes this message, without its CR LF. The last
    /// parameter is always written after a colon.
    pub fn to_line(&self) -> (r: Vec<u8>)
        ensures
            r@ == line_of(self.wire()),
    {
        let ghost w = self.wire();
        let mut out: Vec<u8> = Vec::new();
        match &self.tags {
            Some(t) => {
                let ghost tw = tags_wire(t@);
                out.push(AT);
                let n = t.len();
                let mut k: usize = 0;
                while k < n
                    invariant
                        n == t@.len(),
                        tw == tags_wire(t@),
                        k <= n,
                        out@ + tags_text(tw, k as int) == seq![AT] + tags_text(tw, 0),
                    decreases n - k,
                {
                    let ghost before = out@;
                    push_text(&mut out, &t[k].0);
                    out.push(EQUALS);
                    push_text(&mut out, &t[k].1);
                    assert(tw[k as int] == (encode_utf8(t@[k as int].0@), encode_utf8(
                        t@[k as int].1@,
                    )));
                    if k + 1 < n {
                        out.push(SEMICOLON);
                        assert(before + tags_text(tw, k as int) =~= out@ + tags_text(
                            tw,
                            k + 1int,
                        ));
                    } else {
                        assert(tags_text(tw, k + 1int) =~= Seq::<u8>::empty());
                        assert(before + tags_text(tw, k as int) =~= out@ + tags_text(
                            tw,
                            k + 1int,
                        ));
                    }
                    k = k + 1;
                }
                assert(tags_text(tw, n as int) =~= Seq::<u8>::empty());
                assert(out@ =~= seq![AT] + tags_text(tw, 0));
                out.push(SPACE);
            },
            None => {},
        }
        let ghost after_tags = out@;
        match &self.from {
            Some(f) => {
                out.push(COLON);
                push_text(&mut out, f);
                out.push(SPACE);
            },
            None => {},
        }
        push_text(&mut out, &self.cmd);
        let ghost head = out@;
        let ghost pw = params_wire(self.args@);
        let n = self.args.len();
        let mut k: usize = 0;
        assert(head + params_text(pw, 0) =~= out@ + params_text(pw, k as int));
        while k < n
            invariant
                n == self.args@.len(),
                pw == params_wire(self.args@),
                k <= n,
                out@ + params_text(pw, k as int) == head + params_text(pw, 0),
            decreases n - k,
        {
            let ghost before = out@;
            out.push(SPACE);
            if k + 1 == n {
                out.push(COLON);
            }
            push_text(&mut out, &self.args[k]);
            assert(pw[k as int] == encode_utf8(self.args@[k as int]@));
            if k + 1 == n {
                assert(params_text(pw, k + 1int) =~= Seq::<u8>::empty());
            }
            assert(before + params_text(pw, k as int) =~= out@ + params_text(pw, k + 1int));
            k = k + 1;
        }
        assert(params_text(pw, n as int) =~= Seq::<u8>::empty());
        assert(out@ =~= line_of(w));
        out
    }
}

/// The value of the first tag entry with key `key`.
pub open spec fn tag_lookup(t: Seq<(String, String)>, key: Seq<char>) -> Option<Seq<char>>
    decreases t.len(),
{
    if t.len() == 0 {
        None
    } else if t[0].0@ == key {
        Some(t[0].1@)
    } else {
        tag_lookup(t.drop_first(), key)
    }
}

/// The value of tag `key` of a message, if it has one.
pub open spec fn message_tag(m: Message, key: Seq<char>) -> Option<Seq<char>> {
    match m.tags {
        Some(t) => tag_lookup(t@, key),
        None => None,
    }
}

impl Message {
    /// The value of tag `key`, if the message has one.
    pub fn tag(&self, key: &str) -> (r: Option<&String>)
        ensures
            match r {
                Some(v) => message_tag(*self, key@) == Some(v@),
                None => message_tag(*self, key@) is None,
            },
    {
        match &self.tags {
            None => None,
            Some(t) => {
                let k = String::from_str(key);
                let n = t.len();
                let mut i: usize = 0;
                assert(t@.subrange(0, n as int) =~= t@);
                assert(message_tag(*self, key@) == tag_lookup(t@, key@));
                while i < n
                    invariant
                        message_tag(*self, key@) == tag_lookup(t@, key@),
                        n == t@.len(),
                        i <= n,
                        k@ == key@,
                        tag_lookup(t@, key@) == tag_lookup(t@.subrange(i as int, n as int), key@),
                    decreases n - i,
                {
                    let ghost rest = t@.subrange(i as int, n as int);
                    assert(rest[0] == t@[i as int]);
                    assert(rest.drop_first() =~= t@.subrange(i + 1int, n as int));
                    if t[i].0 == k {
                        assert(tag_lookup(rest, key@) == Some(rest[0].1@));
                        return Some(&t[i].1);
                    }
                    i = i + 1;
                }
                None
            },
        }
    }

    /// The line that writes this message, as text, without its CR LF.
    pub fn to_text(&self) -> (r: String)
        ensures
            encode_utf8(r@) == line_of(self.wire()),
    {
        let line = self.to_line();
        proof {
            lemma_line_valid(*self);
        }
        match utf8_to_string(line.as_slice()) {
            Some(t) => t,
            None => String::new(),
        }
    }
}

/// True when no two entries have the same key.
pub open spec fn unique_keys(t: Seq<(Seq<u8>, Seq<u8>)>) -> bool {
    forall|i: int, j: int| 0 <= i < j < t.len() ==> t[i].0 != t[j].0
}

/// Setting a key keeps the keys unique.
proof fn lemma_tag_insert_unique(t: Seq<(Seq<u8>, Seq<u8>)>, k: Seq<u8>, v: Seq<u8>)
    requires
        unique_keys(t),
    ensures
        unique_keys(tag_insert(t, k, v)),
{
    lemma_tag_position(t, k);
    let i = tag_position(t, k);
    if i == t.len() {
        let u = t.push((k, v));
        assert forall|a: int, b: int| 0 <= a < b < u.len() implies u[a].0 != u[b].0 by {
            if b == t.len() {
                assert(u[a] == t[a]);
            } else {
                assert(u[a] == t[a] && u[b] == t[b]);
            }
        }
    }
}

/// Parsing a tag block onto entries with unique keys keeps them unique.
proof fn lemma_tag_block_unique(acc: Seq<(Seq<u8>, Seq<u8>)>, s: Seq<u8>)
    requires
        unique_keys(acc),
    ensures
        parse_tag_block(acc, s) matches Some(t) ==> unique_keys(t),
    decreases s.len(),
{
    let i = index_of(s, SEMICOLON);
    match parse_tag(s.subrange(0, i as int)) {
        None => {},
        Some(kv) => {
            lemma_tag_insert_unique(acc, kv.0, kv.1);
            if i < s.len() {
                lemma_tag_block_unique(
                    tag_insert(acc, kv.0, kv.1),
                    s.subrange(i + 1int, s.len() as int),
                );
            }
        },
    }
}

/// The tags of a parsed line name each key once.
pub proof fn lemma_parsed_tags_unique(line: Seq<u8>)
    ensures
        parse_line(line) matches Some(w) ==> (w.tags matches Some(t) ==> unique_keys(t)),
{
    if line.len() > 0 && line[0] == AT {
        let body = line.drop_first();
        let i = index_of(body, SPACE);
        lemma_tag_block_unique(Seq::empty(), body.subrange(0, i as int));
    }
}

} // verus!
