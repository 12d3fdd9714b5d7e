//! Splitting an inbound byte stream into CR LF terminated lines.
use vstd::prelude::*;

verus! {

/// True when a CR LF pair starts at index `i` of `s`.
pub open spec fn crlf_at(s: Seq<u8>, i: int) -> bool {
    0 <= i && i + 1 < s.len() && s[i] == 13u8 && s[i + 1] == 10u8
}

/// Index of the first CR LF pair in `s`, or `s.len()` when there is none.
pub open spec fn crlf_index(s: Seq<u8>) -> nat
    decreases s.len(),
{
    if s.len() < 2 {
        s.len()
    } else if s[0] == 13u8 && s[1] == 10u8 {
        0
    } else {
        1 + crlf_index(s.drop_first())
    }
}

/// The complete lines held in `s` (without their terminators), and the bytes
/// after the last terminator.
pub open spec fn split_lines(s: Seq<u8>) -> (Seq<Seq<u8>>, Seq<u8>)
    decreases s.len(),
{
    let i = crlf_index(s);
    if i < s.len() && i + 2 <= s.len() {
        let rest = split_lines(s.subrange(i + 2int, s.len() as int));
        (seq![s.subrange(0, i as int)] + rest.0, rest.1)
    } else {
        (Seq::empty(), s)
    }
}

/// Lines produced when the chunks are fed one after the other, every complete
/// line being taken out after each chunk; and the bytes left over at the end.
pub open spec fn split_lines_fed(chunks: Seq<Seq<u8>>) -> (Seq<Seq<u8>>, Seq<u8>)
    decreases chunks.len(),
{
    if chunks.len() == 0 {
        (Seq::empty(), Seq::empty())
    } else {
        let before = split_lines_fed(chunks.drop_last());
        let after = split_lines(before.1 + chunks.last());
        (before.0 + after.0, after.1)
    }
}

/// The chunks put end to end.
pub open spec fn concat_chunks(chunks: Seq<Seq<u8>>) -> Seq<u8>
    decreases chunks.len(),
{
    if chunks.len() == 0 {
        Seq::empty()
    } else {
        concat_chunks(chunks.drop_last()) + chunks.last()
    }
}

/// `crlf_index` is the least index at which a CR LF pair starts.
pub proof fn lemma_crlf_index(s: Seq<u8>)
    ensures
        crlf_index(s) <= s.len(),
        crlf_index(s) < s.len() ==> crlf_at(s, crlf_index(s) as int),
        crlf_index(s) == s.len() ==> forall|j: int| 0 <= j < s.len() ==> !crlf_at(s, j),
        forall|j: int| 0 <= j < crlf_index(s) ==> !crlf_at(s, j),
    decreases s.len(),
{
    if s.len() >= 2 && !(s[0] == 13u8 && s[1] == 10u8) {
        let t = s.drop_first();
        lemma_crlf_index(t);
        assert forall|j: int| 0 < j < s.len() implies crlf_at(s, j) == crlf_at(t, j - 1) by {}
    }
}

/// A position with no CR LF pair before it, and one at it, is `crlf_index`.
pub proof fn lemma_crlf_index_unique(s: Seq<u8>, i: int)
    requires
        0 <= i <= s.len(),
        forall|j: int| 0 <= j < i ==> !crlf_at(s, j),
        i < s.len() ==> crlf_at(s, i),
        i == s.len() ==> forall|j: int| 0 <= j < s.len() ==> !crlf_at(s, j),
    ensures
        crlf_index(s) == i,
{
    lemma_crlf_index(s);
}

/// Extending a sequence after its first CR LF pair does not move that pair.
proof fn lemma_crlf_index_append(a: Seq<u8>, b: Seq<u8>)
    requires
        crlf_index(a) < a.len(),
    ensures
        crlf_index(a + b) == crlf_index(a),
{
    lemma_crlf_index(a);
    let i = crlf_index(a) as int;
    let ab = a + b;
    assert(crlf_at(ab, i));
    assert forall|j: int| 0 <= j < i implies !crlf_at(ab, j) by {
        assert(!crlf_at(a, j));
    }
    lemma_crlf_index_unique(ab, i);
}

/// Taking the lines out of `a` and then out of what is left of it followed by
/// `b` gives the lines of `a + b`.
pub proof fn lemma_split_lines_append(a: Seq<u8>, b: Seq<u8>)
    ensures
        split_lines(a).0 + split_lines(split_lines(a).1 + b).0 == split_lines(a + b).0,
        split_lines(split_lines(a).1 + b).1 == split_lines(a + b).1,
    decreases a.len(),
{
    lemma_crlf_index(a);
    let i = crlf_index(a);
    if i < a.len() {
        lemma_crlf_index_append(a, b);
        let a2 = a.subrange(i + 2int, a.len() as int);
        lemma_split_lines_append(a2, b);
        assert((a + b).subrange(i + 2int, (a + b).len() as int) =~= a2 + b);
        assert((a + b).subrange(0, i as int) =~= a.subrange(0, i as int));
        let r = split_lines(a2);
        assert(split_lines(a).0 =~= seq![a.subrange(0, i as int)] + r.0);
        assert(split_lines(a).0 + split_lines(r.1 + b).0 =~= seq![a.subrange(0, i as int)] + (
        r.0 + split_lines(r.1 + b).0));
    } else {
        assert(split_lines(a).0 =~= Seq::<Seq<u8>>::empty());
        assert(split_lines(a).0 + split_lines(a + b).0 =~= split_lines(a + b).0);
    }
}

/// Framing does not depend on where the stream was cut: feeding the bytes in
/// any chunks yields the same lines, and leaves the same bytes over, as
/// feeding them all at once.
pub proof fn lemma_framing_chunk_independent(chunks: Seq<Seq<u8>>)
    ensures
        split_lines_fed(chunks) == split_lines(concat_chunks(chunks)),
    decreases chunks.len(),
{
    if chunks.len() == 0 {
        assert(split_lines(Seq::<u8>::empty()).0 =~= Seq::<Seq<u8>>::empty());
    } else {
        let init = chunks.drop_last();
        lemma_framing_chunk_independent(init);
        lemma_split_lines_append(concat_chunks(init), chunks.last());
    }
}

/// Index of the first CR LF pair in `buf`, if there is one.
pub fn get_line_end_idx(buf: &Vec<u8>) -> (r: Option<usize>)
    ensures
        r is Some <==> crlf_index(buf@) < buf@.len(),
        r is Some ==> r->Some_0 == crlf_index(buf@),
{
    proof {
        lemma_crlf_index(buf@);
    }
    let n = buf.len();
    let mut idx: usize = 0;
    while n >= 2 && idx < n - 1
        invariant
            n == buf@.len(),
            idx <= n,
            forall|j: int| 0 <= j < idx ==> !crlf_at(buf@, j),
        decreases n - idx,
    {
        if buf[idx] == 13u8 && buf[idx + 1] == 10u8 {
            proof {
                lemma_crlf_index_unique(buf@, idx as int);
            }
            return Some(idx);
        }
        idx = idx + 1;
    }
    proof {
        lemma_crlf_index_unique(buf@, buf@.len() as int);
    }
    None
}

/// Accumulates inbound bytes and hands out complete lines.
pub struct FrameBuffer {
    buf: Vec<u8>,
}

impl View for FrameBuffer {
    type V = Seq<u8>;

    closed spec fn view(&self) -> Seq<u8> {
        self.buf@
    }
}

impl FrameBuffer {
    /// An empty buffer.
    pub fn new() -> (r: FrameBuffer)
        ensures
            r@ == Seq::<u8>::empty(),
    {
        FrameBuffer { buf: Vec::new() }
    }

    /// Appends `bytes` to what is buffered.
    pub fn feed(&mut self, bytes: &[u8])
        ensures
            final(self)@ == old(self)@ + bytes@,
    {
        self.buf.extend_from_slice(bytes);
        assert(self.buf@ =~= old(self)@ + bytes@);
    }

    /// Takes out the first complete line, without its CR LF. Returns `None`,
    /// and keeps every byte, when no complete line is buffered.
    pub fn next_line(&mut self) -> (r: Option<Vec<u8>>)
        ensures
            r is Some <==> crlf_index(old(self)@) < old(self)@.len(),
            r is Some ==> r->Some_0@ == old(self)@.subrange(0, crlf_index(old(self)@) as int)
                && final(self)@ == old(self)@.subrange(
                crlf_index(old(self)@) + 2int,
                old(self)@.len() as int,
            ),
            r is None ==> final(self)@ == old(self)@,
            r is Some ==> split_lines(old(self)@).0 == seq![r->Some_0@] + split_lines(
                final(self)@,
            ).0 && split_lines(old(self)@).1 == split_lines(final(self)@).1,
            r is None ==> split_lines(old(self)@).0.len() == 0 && split_lines(old(self)@).1
                == old(self)@,
    {
        proof {
            lemma_crlf_index(self.buf@);
        }
        match get_line_end_idx(&self.buf) {
            Some(idx) => {
                let n = self.buf.len();
                assert(crlf_at(self.buf@, idx as int));
                assert(idx + 2 <= n);
                let tail = self.buf.split_off(idx + 2);
                let mut line = tail;
                core::mem::swap(&mut line, &mut self.buf);
                line.truncate(idx);
                assert(line@ =~= old(self)@.subrange(0, idx as int));
                Some(line)
            },
            None => {
                assert(split_lines(self@).0 =~= Seq::<Seq<u8>>::empty());
                None
            },
        }
    }

    /// Takes out every complete line, in order; what follows the last CR LF
    /// stays buffered.
    pub fn drain_lines(&mut self) -> (r: Vec<Vec<u8>>)
        ensures
            r@.map_values(|l: Vec<u8>| l@) == split_lines(old(self)@).0,
            final(self)@ == split_lines(old(self)@).1,
    {
        let mut out: Vec<Vec<u8>> = Vec::new();
        loop
            invariant
                out@.map_values(|l: Vec<u8>| l@) + split_lines(self@).0 == split_lines(
                    old(self)@,
                ).0,
                split_lines(self@).1 == split_lines(old(self)@).1,
            decreases self@.len(),
        {
            let ghost prev = out@.map_values(|l: Vec<u8>| l@);
            match self.next_line() {
                Some(line) => {
                    let ghost l = line@;
                    out.push(line);
                    assert(out@.map_values(|l: Vec<u8>| l@) =~= prev.push(l));
                    assert(prev.push(l) + split_lines(self@).0 =~= prev + (seq![l] + split_lines(
                        self@,
                    ).0));
                },
                None => {
                    assert(prev + split_lines(self@).0 =~= prev);
                    return out;
                },
            }
        }
    }
}

} // verus!
