//! Cutting a byte stream into lines.
//!
//! A line is a run of bytes that ends with the delimiter and holds no other
//! delimiter. Bytes arrive in chunks of any size; whatever follows the last
//! delimiter waits in a [`LineBuffer`] for the rest of its line.

use vstd::prelude::*;

verus! {

/// The byte that ends a line.
pub const NEWLINE: u8 = 10;

/// No byte of `s` is the delimiter.
pub open spec fn has_no_newline(s: Seq<u8>) -> bool {
    forall|i: int| 0 <= i < s.len() ==> s[i] != NEWLINE
}

/// `s` is one whole line: it ends with the delimiter and holds no other.
pub open spec fn is_line(s: Seq<u8>) -> bool {
    &&& s.len() > 0
    &&& s.last() == NEWLINE
    &&& has_no_newline(s.drop_last())
}

/// The whole lines of `s`, in order, each with its delimiter.
pub open spec fn complete_lines(s: Seq<u8>) -> Seq<Seq<u8>>
    decreases s.len(),
{
    if s.len() == 0 {
        Seq::empty()
    } else if s.last() == NEWLINE {
        complete_lines(s.drop_last()).push(partial_line(s.drop_last()).push(NEWLINE))
    } else {
        complete_lines(s.drop_last())
    }
}

/// What follows the last delimiter of `s`: the beginning of a line whose end
/// has not arrived.
pub open spec fn partial_line(s: Seq<u8>) -> Seq<u8>
    decreases s.len(),
{
    if s.len() == 0 {
        Seq::empty()
    } else if s.last() == NEWLINE {
        Seq::empty()
    } else {
        partial_line(s.drop_last()).push(s.last())
    }
}

/// The lines held by `lines`, as sequences of bytes.
pub open spec fn lines_view(lines: Vec<Vec<u8>>) -> Seq<Seq<u8>> {
    Seq::new(lines@.len(), |i: int| lines@[i]@)
}

/// The bytes of a line that is still incomplete.
pub struct LineBuffer {
    pending: Vec<u8>,
}

impl LineBuffer {
    /// The bytes received since the last delimiter.
    pub closed spec fn view(&self) -> Seq<u8> {
        self.pending@
    }

    #[verifier::type_invariant]
    closed spec fn inv(&self) -> bool {
        has_no_newline(self.pending@)
    }

    /// A buffer that holds nothing.
    pub fn new() -> (buffer: Self)
        ensures
            buffer@ == Seq::<u8>::empty(),
    {
        LineBuffer { pending: Vec::new() }
    }

    /// The number of bytes that wait for the end of their line.
    pub fn pending_len(&self) -> (n: usize)
        ensures
            n == self@.len(),
            has_no_newline(self@),
    {
        proof {
            use_type_invariant(self);
        }
        self.pending.len()
    }

    /// Takes in the next chunk of the stream and hands out the lines that it
    /// completes, in order; the first of them begins with the bytes that
    /// were waiting. What follows the chunk's last delimiter waits in turn.
    /// No byte is lost, added or moved.
    pub fn feed(&mut self, chunk: &[u8]) -> (lines: Vec<Vec<u8>>)
        ensures
            lines_view(lines) == complete_lines(old(self)@ + chunk@),
            final(self)@ == partial_line(old(self)@ + chunk@),
            lines_view(lines).flatten() + final(self)@ == old(self)@ + chunk@,
            forall|i: int| 0 <= i < lines.len() ==> is_line(#[trigger] lines_view(lines)[i]),
            has_no_newline(final(self)@),
            has_no_newline(old(self)@),
    {
        proof {
            use_type_invariant(&*self);
            lemma_without_newline_nothing_completes(old(self)@);
        }
        // The waiting bytes are taken out while the chunk is read, and put
        // back when no delimiter is among them any more.
        let mut pending: Vec<u8> = Vec::new();
        core::mem::swap(&mut self.pending, &mut pending);
        let mut lines: Vec<Vec<u8>> = Vec::new();
        let mut i: usize = 0;
        assert(old(self)@ + chunk@.take(0) =~= old(self)@);
        assert(lines_view(lines) =~= Seq::<Seq<u8>>::empty());
        while i < chunk.len()
            invariant
                0 <= i <= chunk.len(),
                self.pending@ == Seq::<u8>::empty(),
                lines_view(lines) == complete_lines(old(self)@ + chunk@.take(i as int)),
                pending@ == partial_line(old(self)@ + chunk@.take(i as int)),
            decreases chunk.len() - i,
        {
            let byte: u8 = chunk[i];
            let ghost before = old(self)@ + chunk@.take(i as int);
            let ghost lines_before = lines_view(lines);
            proof {
                let upto = old(self)@ + chunk@.take(i + 1);
                assert(upto.drop_last() =~= before);
                assert(upto.last() == byte);
            }
            pending.push(byte);
            if byte == NEWLINE {
                let mut line: Vec<u8> = Vec::new();
                core::mem::swap(&mut pending, &mut line);
                lines.push(line);
                assert(lines_view(lines) =~= lines_before.push(partial_line(before).push(NEWLINE)));
            }
            i += 1;
        }
        proof {
            assert(chunk@.take(i as int) =~= chunk@);
            lemma_framing_preserves_bytes(old(self)@ + chunk@);
            lemma_lines_are_whole(old(self)@ + chunk@);
        }
        core::mem::swap(&mut self.pending, &mut pending);
        lines
    }

    /// Ends the stream: hands out the bytes that were waiting, as the last
    /// line without its delimiter, and `None` if none were. The buffer is
    /// empty afterwards.
    pub fn finish(&mut self) -> (rest: Option<Vec<u8>>)
        ensures
            final(self)@ == Seq::<u8>::empty(),
            old(self)@.len() == 0 ==> rest is None,
            old(self)@.len() > 0 ==> rest is Some && rest.unwrap()@ == old(self)@,
    {
        let mut pending: Vec<u8> = Vec::new();
        core::mem::swap(&mut self.pending, &mut pending);
        if pending.len() == 0 {
            None
        } else {
            Some(pending)
        }
    }
}

/// Bytes without a delimiter complete no line: all of them wait.
pub proof fn lemma_without_newline_nothing_completes(s: Seq<u8>)
    requires
        has_no_newline(s),
    ensures
        complete_lines(s) == Seq::<Seq<u8>>::empty(),
        partial_line(s) == s,
    decreases s.len(),
{
    if s.len() > 0 {
        lemma_without_newline_nothing_completes(s.drop_last());
        assert(partial_line(s.drop_last()).push(s.last()) =~= s);
    } else {
        assert(partial_line(s) =~= s);
    }
}

/// Framing keeps every byte in its place: the whole lines of `s`, one after
/// the other, followed by what waits, are `s`.
pub proof fn lemma_framing_preserves_bytes(s: Seq<u8>)
    ensures
        complete_lines(s).flatten() + partial_line(s) == s,
    decreases s.len(),
{
    if s.len() == 0 {
        assert(complete_lines(s).flatten() + partial_line(s) =~= s);
    } else {
        let front = s.drop_last();
        lemma_framing_preserves_bytes(front);
        if s.last() == NEWLINE {
            let line = partial_line(front).push(NEWLINE);
            complete_lines(front).lemma_flatten_push(line);
            assert(complete_lines(front).flatten() + line =~= (complete_lines(front).flatten()
                + partial_line(front)).push(NEWLINE));
            assert(front.push(NEWLINE) =~= s);
            assert(complete_lines(s).flatten() + partial_line(s) =~= s);
        } else {
            assert(complete_lines(s).flatten() + partial_line(s) =~= (complete_lines(
                front,
            ).flatten() + partial_line(front)).push(s.last()));
            assert(front.push(s.last()) =~= s);
        }
    }
}

/// Every line that framing hands out is whole, and what waits holds no
/// delimiter.
pub proof fn lemma_lines_are_whole(s: Seq<u8>)
    ensures
        forall|i: int| 0 <= i < complete_lines(s).len() ==> is_line(#[trigger] complete_lines(s)[i]),
        has_no_newline(partial_line(s)),
    decreases s.len(),
{
    if s.len() > 0 {
        let front = s.drop_last();
        lemma_lines_are_whole(front);
        if s.last() == NEWLINE {
            let line = partial_line(front).push(NEWLINE);
            assert(line.drop_last() =~= partial_line(front));
            assert(is_line(line));
            assert forall|i: int| 0 <= i < complete_lines(s).len() implies is_line(
                #[trigger] complete_lines(s)[i],
            ) by {
                if i < complete_lines(front).len() {
                    assert(complete_lines(s)[i] == complete_lines(front)[i]);
                }
            }
        }
    }
}

/// How the stream is cut into chunks does not matter: feeding `a` and then
/// `b` hands out the lines of `a + b`, and leaves waiting what `a + b`
/// leaves.
pub proof fn lemma_chunks_do_not_matter(a: Seq<u8>, b: Seq<u8>)
    ensures
        complete_lines(a + b) == complete_lines(a) + complete_lines(partial_line(a) + b),
        partial_line(a + b) == partial_line(partial_line(a) + b),
    decreases b.len(),
{
    lemma_lines_are_whole(a);
    if b.len() == 0 {
        assert(a + b =~= a);
        assert(partial_line(a) + b =~= partial_line(a));
        lemma_without_newline_nothing_completes(partial_line(a));
        assert(complete_lines(a) + Seq::<Seq<u8>>::empty() =~= complete_lines(a));
    } else {
        let front = b.drop_last();
        lemma_chunks_do_not_matter(a, front);
        assert((a + b).drop_last() =~= a + front);
        assert((partial_line(a) + b).drop_last() =~= partial_line(a) + front);
        assert((a + b).last() == b.last());
        assert((partial_line(a) + b).last() == b.last());
        if b.last() == NEWLINE {
            let line = partial_line(a + front).push(NEWLINE);
            assert(complete_lines(a + b) =~= complete_lines(a) + complete_lines(
                partial_line(a) + front,
            ).push(line));
        }
    }
}

/// There is only one way to cut a stream: whole lines that are followed by
/// bytes without a delimiter, and that together are `s`, are the lines of
/// `s` and what `s` leaves waiting.
pub proof fn lemma_framing_is_unique(s: Seq<u8>, lines: Seq<Seq<u8>>, rest: Seq<u8>)
    requires
        forall|i: int| 0 <= i < lines.len() ==> is_line(#[trigger] lines[i]),
        has_no_newline(rest),
        lines.flatten() + rest == s,
    ensures
        lines == complete_lines(s),
        rest == partial_line(s),
    decreases s.len(),
{
    if s.len() == 0 {
        if lines.len() > 0 {
            assert(is_line(lines[0]));
            assert(lines.flatten().len() >= lines[0].len());
        }
        assert(rest =~= partial_line(s));
        assert(lines =~= complete_lines(s));
    } else if rest.len() > 0 {
        let front = s.drop_last();
        assert(s.last() == rest.last());
        assert(lines.flatten() + rest.drop_last() =~= front);
        lemma_framing_is_unique(front, lines, rest.drop_last());
        assert(rest =~= rest.drop_last().push(rest.last()));
    } else {
        assert(lines.flatten() =~= s);
        assert(lines.len() > 0);
        let init = lines.drop_last();
        let line = lines.last();
        assert(is_line(line));
        assert(lines =~= init.push(line));
        init.lemma_flatten_push(line);
        assert(s.last() == line.last());
        let front = s.drop_last();
        assert(init.flatten() + line.drop_last() =~= front);
        assert forall|i: int| 0 <= i < init.len() implies is_line(#[trigger] init[i]) by {
            assert(init[i] == lines[i]);
        }
        lemma_framing_is_unique(front, init, line.drop_last());
        assert(line =~= line.drop_last().push(NEWLINE));
        assert(rest =~= partial_line(s));
    }
}

/// Lines that are written whole stay whole: when whole lines are written one
/// at a time, by whichever writers and in whichever order, cutting the bytes
/// that were written gives back those lines, in the order of the writes, and
/// nothing is left over. No line holds a byte of another.
pub proof fn lemma_written_lines_stay_whole(writes: Seq<Seq<u8>>)
    requires
        forall|k: int| 0 <= k < writes.len() ==> is_line(#[trigger] writes[k]),
    ensures
        complete_lines(writes.flatten()) == writes,
        partial_line(writes.flatten()) == Seq::<u8>::empty(),
{
    assert(writes.flatten() + Seq::<u8>::empty() =~= writes.flatten());
    lemma_framing_is_unique(writes.flatten(), writes, Seq::empty());
}

} // verus!
