use vstd::prelude::*;
use crate::registry::{toks_views, Event};

verus! {

// ---------------------------------------------------------------------------
// Classification of one chunk of inbound text
//
// A freshly read chunk is a command line exactly when its first byte is the
// marker `/`; otherwise the whole chunk, untrimmed, is a broadcast payload.
// Command tokens are the maximal runs of non-whitespace bytes, whitespace
// being the five ASCII whitespace bytes.
// ---------------------------------------------------------------------------

/// The five ASCII whitespace bytes: space, tab, line feed, form feed,
/// carriage return.
pub open spec fn is_ws(b: u8) -> bool {
    b == 32 || b == 9 || b == 10 || b == 12 || b == 13
}

/// Tokenization with an accumulator: `cur` is the run of non-whitespace
/// bytes read so far and still open.
pub open spec fn tokens_acc(s: Seq<u8>, cur: Seq<u8>) -> Seq<Seq<u8>>
    decreases s.len(),
{
    if s.len() == 0 {
        if cur.len() == 0 {
            Seq::empty()
        } else {
            seq![cur]
        }
    } else if is_ws(s[0]) {
        (if cur.len() == 0 {
            Seq::empty()
        } else {
            seq![cur]
        }) + tokens_acc(s.drop_first(), Seq::empty())
    } else {
        tokens_acc(s.drop_first(), cur.push(s[0]))
    }
}

/// The maximal runs of non-whitespace bytes, in order.
pub open spec fn tokens_of(s: Seq<u8>) -> Seq<Seq<u8>> {
    tokens_acc(s, Seq::empty())
}

/// Whether a chunk is a command line: its first byte is `/`.
pub open spec fn is_command_text(text: Seq<u8>) -> bool {
    text.len() > 0 && text[0] == 47
}

/// What `classify` owes for a chunk: the whole chunk as a broadcast payload,
/// or its whitespace-split tokens as a command, by the marker byte.
pub open spec fn classified(id: u64, text: Seq<u8>, ev: Event) -> bool {
    if is_command_text(text) {
        ev matches Event::Command(i, toks) && i == id && toks_views(toks@) == tokens_of(text)
    } else {
        ev matches Event::Broadcast(i, t) && i == id && t@ == text
    }
}

/// A text whose first byte is not whitespace splits into at least one token.
proof fn lemma_tokens_acc_nonempty(s: Seq<u8>, cur: Seq<u8>)
    requires
        cur.len() > 0,
    ensures
        tokens_acc(s, cur).len() >= 1,
    decreases s.len(),
{
    if s.len() == 0 {
    } else if is_ws(s[0]) {
    } else {
        lemma_tokens_acc_nonempty(s.drop_first(), cur.push(s[0]));
    }
}

/// A command line always carries its command word: the marker byte `/` is
/// not whitespace, so the first token exists.
pub proof fn lemma_command_tokens_nonempty(text: Seq<u8>)
    requires
        is_command_text(text),
    ensures
        tokens_of(text).len() >= 1,
{
    assert(!is_ws(text[0]));
    lemma_tokens_acc_nonempty(text.drop_first(), Seq::<u8>::empty().push(text[0]));
}

fn is_ws_exec(b: u8) -> (r: bool)
    ensures
        r == is_ws(b),
{
    b == 32 || b == 9 || b == 10 || b == 12 || b == 13
}

/// Splits a chunk into its whitespace-separated tokens.
pub fn tokenize(text: &Vec<u8>) -> (toks: Vec<Vec<u8>>)
    ensures
        toks_views(toks@) == tokens_of(text@),
{
    let mut toks: Vec<Vec<u8>> = Vec::new();
    let mut cur: Vec<u8> = Vec::new();
    let n = text.len();
    let mut i: usize = 0;
    proof {
        assert(text@.skip(0) =~= text@);
        assert(toks_views(toks@) =~= Seq::<Seq<u8>>::empty());
        assert(Seq::<Seq<u8>>::empty() + tokens_acc(text@, cur@) =~= tokens_acc(text@, cur@));
        assert(cur@ =~= Seq::<u8>::empty());
    }
    while i < n
        invariant
            i <= n,
            n == text.len(),
            tokens_of(text@) == toks_views(toks@) + tokens_acc(text@.skip(i as int), cur@),
        decreases n - i,
    {
        let ghost suffix = text@.skip(i as int);
        proof {
            assert(suffix[0] == text@[i as int]);
            assert(suffix.drop_first() =~= text@.skip(i as int + 1));
        }
        let b = text[i];
        if is_ws_exec(b) {
            if cur.len() > 0 {
                let ghost t0 = toks_views(toks@);
                let ghost c0 = cur@;
                toks.push(cur);
                cur = Vec::new();
                proof {
                    assert(cur@ =~= Seq::<u8>::empty());
                    assert(toks_views(toks@) =~= t0 + seq![c0]);
                    assert(tokens_acc(suffix, c0) == seq![c0] + tokens_acc(
                        text@.skip(i as int + 1),
                        Seq::empty(),
                    ));
                    assert((t0 + seq![c0]) + tokens_acc(text@.skip(i as int + 1), Seq::empty())
                        =~= t0 + (seq![c0] + tokens_acc(text@.skip(i as int + 1), Seq::empty())));
                }
            } else {
                proof {
                    assert(tokens_acc(suffix, cur@) == Seq::<Seq<u8>>::empty() + tokens_acc(
                        text@.skip(i as int + 1),
                        Seq::empty(),
                    ));
                    assert(Seq::<Seq<u8>>::empty() + tokens_acc(
                        text@.skip(i as int + 1),
                        Seq::empty(),
                    ) =~= tokens_acc(text@.skip(i as int + 1), Seq::empty()));
                    assert(cur@ =~= Seq::<u8>::empty());
                }
            }
        } else {
            let ghost c0 = cur@;
            cur.push(b);
            proof {
                assert(tokens_acc(suffix, c0) == tokens_acc(text@.skip(i as int + 1), cur@));
            }
        }
        i = i + 1;
    }
    proof {
        assert(text@.skip(n as int) =~= Seq::<u8>::empty());
    }
    if cur.len() > 0 {
        let ghost t0 = toks_views(toks@);
        let ghost c0 = cur@;
        toks.push(cur);
        proof {
            assert(toks_views(toks@) =~= t0 + seq![c0]);
        }
    } else {
        proof {
            assert(toks_views(toks@) + Seq::<Seq<u8>>::empty() =~= toks_views(toks@));
        }
    }
    toks
}

/// Classifies one decoded chunk as a broadcast payload or a command line,
/// on behalf of the sender with the given id.
pub fn classify(id: u64, text: Vec<u8>) -> (ev: Event)
    ensures
        classified(id, text@, ev),
        ev matches Event::Command(i, toks) ==> toks@.len() > 0,
{
    if text.len() > 0 && text[0] == 47u8 {
        let toks = tokenize(&text);
        proof {
            lemma_command_tokens_nonempty(text@);
        }
        Event::Command(id, toks)
    } else {
        Event::Broadcast(id, text)
    }
}

// ---------------------------------------------------------------------------
// Permissive decoding of raw reads
// ---------------------------------------------------------------------------

/// The bytes of the permissive text decoding of a raw read: invalid byte
/// sequences are substituted, never reported; the result depends on the
/// bytes alone.
pub uninterp spec fn lossy_utf8(bytes: Seq<u8>) -> Seq<u8>;

/// Relies on String::from_utf8_lossy: decodes, replacing invalid sequences
/// with the replacement character; a pure function of the bytes.
#[verifier::external_body]
fn decode_lossy(bytes: &[u8]) -> (r: Vec<u8>)
    ensures
        r@ == lossy_utf8(bytes@),
{
    String::from_utf8_lossy(bytes).into_owned().into_bytes()
}

/// Turns one raw read from a client's stream into that client's event:
/// decode permissively, then classify. Exactly one event per completed
/// read.
pub fn read_event(id: u64, bytes: &[u8]) -> (ev: Event)
    ensures
        classified(id, lossy_utf8(bytes@), ev),
        ev matches Event::Command(i, toks) ==> toks@.len() > 0,
{
    let text = decode_lossy(bytes);
    classify(id, text)
}

} // verus!
