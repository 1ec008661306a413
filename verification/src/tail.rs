//! The last bytes of a host output stream: stderr to quote why a host died at
//! boot, stdout to recover the authenticated URL the host prints.

use vstd::prelude::*;

use crate::web_url::{last_web_url, parse_web_url};

verus! {

/// How many of the most recent bytes a tail keeps (8 KiB).
pub const TAIL_LIMIT: usize = 8192;

/// The last `n` elements of `s`, or all of `s` when it is no longer.
pub open spec fn keep_last(s: Seq<u8>, n: nat) -> Seq<u8> {
    if s.len() <= n {
        s
    } else {
        s.skip(s.len() - n)
    }
}

/// Everything a stream delivered, chunk after chunk.
pub open spec fn concat_chunks(chunks: Seq<Seq<u8>>) -> Seq<u8>
    decreases chunks.len(),
{
    if chunks.len() == 0 {
        Seq::empty()
    } else {
        concat_chunks(chunks.drop_last()) + chunks.last()
    }
}

/// What a tail holds after recording `chunks` one by one from empty.
pub open spec fn tail_after(chunks: Seq<Seq<u8>>) -> Seq<u8>
    decreases chunks.len(),
{
    if chunks.len() == 0 {
        Seq::empty()
    } else {
        keep_last(tail_after(chunks.drop_last()) + chunks.last(), TAIL_LIMIT as nat)
    }
}

/// Every byte is ASCII (below 0x80).
pub open spec fn is_ascii_bytes(bytes: Seq<u8>) -> bool {
    forall|i: int| 0 <= i < bytes.len() ==> #[trigger] bytes[i] < 0x80u8
}

/// What `String::from_utf8_lossy` makes of a byte sequence: UTF-8 decoding in
/// which each invalid sequence becomes U+FFFD.
pub uninterp spec fn utf8_lossy(bytes: Seq<u8>) -> Seq<char>;

/// Calls `String::from_utf8_lossy` and takes the owned result. The contract
/// claims that the text is the lossy decoding of the bytes, a function of the
/// bytes alone, and, as std documents that valid UTF-8 comes back unchanged,
/// that valid UTF-8 decodes to the characters it encodes (vstd's model of
/// UTF-8) and that bytes which are all ASCII decode to the same characters.
/// What the decoding makes of invalid bytes is not stated.
#[verifier::external_body]
fn decode_lossy(bytes: &[u8]) -> (text: String)
    ensures
        text@ == utf8_lossy(bytes@),
        vstd::utf8::valid_utf8(bytes@) ==> text@ == vstd::utf8::decode_utf8(bytes@),
        is_ascii_bytes(bytes@) ==> text@ == bytes@.map_values(|b: u8| b as char),
{
    String::from_utf8_lossy(bytes).into_owned()
}

/// The last `TAIL_LIMIT` bytes of a stream.
pub struct OutputTail {
    bytes: Vec<u8>,
}

impl View for OutputTail {
    type V = Seq<u8>;

    closed spec fn view(&self) -> Seq<u8> {
        self.bytes@
    }
}

impl OutputTail {
    #[verifier::type_invariant]
    closed spec fn within_limit(&self) -> bool {
        self.bytes.len() <= TAIL_LIMIT
    }

    /// An empty tail.
    pub fn new() -> (t: OutputTail)
        ensures
            t@ == Seq::<u8>::empty(),
    {
        OutputTail { bytes: Vec::new() }
    }

    /// The bytes held, oldest first.
    pub fn bytes(&self) -> (b: &[u8])
        ensures
            b@ == self@,
    {
        self.bytes.as_slice()
    }

    /// Append a chunk that the stream delivered, dropping the oldest bytes
    /// beyond `TAIL_LIMIT`.
    pub fn record(&mut self, chunk: &[u8])
        ensures
            final(self)@ == keep_last(old(self)@ + chunk@, TAIL_LIMIT as nat),
            final(self)@.len() <= TAIL_LIMIT,
    {
        proof {
            use_type_invariant(&*self);
        }
        let ghost all = self@ + chunk@;
        let mut kept: Vec<u8> = Vec::new();
        if chunk.len() >= TAIL_LIMIT {
            let from = chunk.len() - TAIL_LIMIT;
            let mut i = from;
            while i < chunk.len()
                invariant
                    from <= i <= chunk.len(),
                    kept@ == chunk@.subrange(from as int, i as int),
                decreases chunk.len() - i,
            {
                kept.push(chunk[i]);
                assert(chunk@.subrange(from as int, i + 1) =~= chunk@.subrange(
                    from as int,
                    i as int,
                ).push(chunk@[i as int]));
                i = i + 1;
            }
            assert(kept@ =~= keep_last(all, TAIL_LIMIT as nat));
        } else {
            let room = TAIL_LIMIT - chunk.len();
            let old_len = self.bytes.len();
            let from = if old_len > room {
                old_len - room
            } else {
                0
            };
            let mut i = from;
            while i < old_len
                invariant
                    from <= i <= old_len == self.bytes.len(),
                    kept@ == self.bytes@.subrange(from as int, i as int),
                decreases old_len - i,
            {
                kept.push(self.bytes[i]);
                assert(self.bytes@.subrange(from as int, i + 1) =~= self.bytes@.subrange(
                    from as int,
                    i as int,
                ).push(self.bytes@[i as int]));
                i = i + 1;
            }
            let mut j: usize = 0;
            while j < chunk.len()
                invariant
                    j <= chunk.len(),
                    kept@ == self.bytes@.subrange(from as int, old_len as int) + chunk@.take(
                        j as int,
                    ),
                decreases chunk.len() - j,
            {
                kept.push(chunk[j]);
                assert(chunk@.take(j + 1) =~= chunk@.take(j as int).push(chunk@[j as int]));
                j = j + 1;
            }
            assert(chunk@.take(chunk.len() as int) =~= chunk@);
            assert(kept@ =~= keep_last(all, TAIL_LIMIT as nat));
        }
        self.bytes = kept;
    }

    /// The tail as text, decoded lossily.
    pub fn text(&self) -> (s: String)
        ensures
            s@ == utf8_lossy(self@),
            is_ascii_bytes(self@) ==> s@ == self@.map_values(|b: u8| b as char),
    {
        decode_lossy(self.bytes.as_slice())
    }
}

/// Keeping the last `n` of the last `n` followed by more is keeping the last
/// `n` of everything.
pub proof fn lemma_keep_last_of_keep_last(a: Seq<u8>, b: Seq<u8>, n: nat)
    ensures
        keep_last(keep_last(a, n) + b, n) == keep_last(a + b, n),
{
    if a.len() > n {
        let k = keep_last(a, n);
        assert(k + b =~= (a + b).skip(a.len() - n));
        if (k + b).len() > n {
            assert((k + b).skip((k + b).len() - n) =~= (a + b).skip((a + b).len() - n));
        }
    }
}

/// Recording a stream chunk by chunk leaves exactly its last `TAIL_LIMIT`
/// bytes, however the stream was cut into chunks.
pub proof fn lemma_tail_is_last_bytes_of_stream(chunks: Seq<Seq<u8>>)
    ensures
        tail_after(chunks) == keep_last(concat_chunks(chunks), TAIL_LIMIT as nat),
    decreases chunks.len(),
{
    if chunks.len() > 0 {
        lemma_tail_is_last_bytes_of_stream(chunks.drop_last());
        lemma_keep_last_of_keep_last(
            concat_chunks(chunks.drop_last()),
            chunks.last(),
            TAIL_LIMIT as nat,
        );
    } else {
        assert(keep_last(Seq::<u8>::empty(), TAIL_LIMIT as nat) =~= Seq::<u8>::empty());
    }
}

/// The captured host stderr, lossily decoded for display.
pub fn host_error_tail(stderr: &OutputTail) -> (s: String)
    ensures
        s@ == utf8_lossy(stderr@),
        is_ascii_bytes(stderr@) ==> s@ == stderr@.map_values(|b: u8| b as char),
{
    stderr.text()
}

/// The last authenticated URL seen on the captured host stdout, if any.
pub fn authenticated_host_url(stdout: &OutputTail) -> (r: Option<String>)
    ensures
        match r {
            Some(url) => last_web_url(utf8_lossy(stdout@)) == Some(url@),
            None => last_web_url(utf8_lossy(stdout@)) is None,
        },
        is_ascii_bytes(stdout@) ==> utf8_lossy(stdout@) == stdout@.map_values(|b: u8| b as char),
{
    let text = stdout.text();
    parse_web_url(text.as_str())
}

} // verus!
