use vstd::prelude::*;

use crate::bytes::{append_bytes, copy_range};
use crate::change::{
    change_wf, signed_data, Change, ChangeHistory, ChangeView, CHANGE_HASH_LEN, KEY_LEN,
    NEXT_TAG, ROOT_TAG, SIGNATURE_LEN,
};

verus! {

/// First byte of an encoded change history: the format version.
pub const FORMAT_VERSION: u8 = 1;

/// Encoded length of a root change: tag, public key, signature.
pub const ROOT_RECORD_LEN: usize = 97;

/// Encoded length of a non-root change: tag, previous hash, public key, signature.
pub const NEXT_RECORD_LEN: usize = 117;

/// Encoding of one change: its signed data followed by its signature.
pub open spec fn encode_change(c: ChangeView) -> Seq<u8> {
    signed_data(c) + c.signature
}

/// Encoding of a sequence of changes, one after the other.
pub open spec fn encode_changes(h: Seq<ChangeView>) -> Seq<u8>
    decreases h.len(),
{
    if h.len() == 0 {
        Seq::empty()
    } else {
        encode_change(h[0]) + encode_changes(h.drop_first())
    }
}

/// Encoding of a change history: the format version, then the changes.
pub open spec fn encode_history(h: Seq<ChangeView>) -> Seq<u8> {
    seq![FORMAT_VERSION] + encode_changes(h)
}

/// The change encoded at the start of `b`, and the length of its encoding.
pub open spec fn decode_change(b: Seq<u8>) -> Option<(ChangeView, nat)> {
    if b.len() >= ROOT_RECORD_LEN && b[0] == ROOT_TAG {
        Some(
            (
                ChangeView {
                    previous: None,
                    public_key: b.subrange(1, 1 + KEY_LEN),
                    signature: b.subrange(1 + KEY_LEN, ROOT_RECORD_LEN as int),
                },
                ROOT_RECORD_LEN as nat,
            ),
        )
    } else if b.len() >= NEXT_RECORD_LEN && b[0] == NEXT_TAG {
        Some(
            (
                ChangeView {
                    previous: Some(b.subrange(1, 1 + CHANGE_HASH_LEN)),
                    public_key: b.subrange(1 + CHANGE_HASH_LEN, 1 + CHANGE_HASH_LEN + KEY_LEN),
                    signature: b.subrange(
                        1 + CHANGE_HASH_LEN + KEY_LEN,
                        NEXT_RECORD_LEN as int,
                    ),
                },
                NEXT_RECORD_LEN as nat,
            ),
        )
    } else {
        None
    }
}

/// The changes encoded one after the other in `b`, if `b` is exactly such an encoding.
pub open spec fn decode_changes(b: Seq<u8>) -> Option<Seq<ChangeView>>
    decreases b.len(),
{
    if b.len() == 0 {
        Some(Seq::empty())
    } else {
        match decode_change(b) {
            None => None,
            Some((c, n)) => if 0 < n <= b.len() {
                match decode_changes(b.subrange(n as int, b.len() as int)) {
                    None => None,
                    Some(rest) => Some(seq![c] + rest),
                }
            } else {
                None
            },
        }
    }
}

/// The change history encoded by `b`: the version byte, then at least one change.
pub open spec fn decode_history(b: Seq<u8>) -> Option<Seq<ChangeView>> {
    if b.len() >= 1 && b[0] == FORMAT_VERSION {
        match decode_changes(b.drop_first()) {
            Some(h) => if h.len() > 0 {
                Some(h)
            } else {
                None
            },
            None => None,
        }
    } else {
        None
    }
}

proof fn lemma_decode_change_of_encoding(c: ChangeView, rest: Seq<u8>)
    requires
        change_wf(c),
    ensures
        decode_change(encode_change(c) + rest) == Some((c, encode_change(c).len())),
        encode_change(c).len() > 0,
{
    let b = encode_change(c) + rest;
    match c.previous {
        None => {
            assert(b.subrange(1, 1 + KEY_LEN) =~= c.public_key);
            assert(b.subrange(1 + KEY_LEN, ROOT_RECORD_LEN as int) =~= c.signature);
        },
        Some(p) => {
            assert(b.subrange(1, 1 + CHANGE_HASH_LEN) =~= p);
            assert(b.subrange(1 + CHANGE_HASH_LEN, 1 + CHANGE_HASH_LEN + KEY_LEN)
                =~= c.public_key);
            assert(b.subrange(1 + CHANGE_HASH_LEN + KEY_LEN, NEXT_RECORD_LEN as int)
                =~= c.signature);
        },
    }
}

proof fn lemma_decode_encode_changes(h: Seq<ChangeView>)
    requires
        forall|i: int| 0 <= i < h.len() ==> change_wf(#[trigger] h[i]),
    ensures
        decode_changes(encode_changes(h)) == Some(h),
    decreases h.len(),
{
    if h.len() > 0 {
        let tail = h.drop_first();
        assert forall|i: int| 0 <= i < tail.len() implies change_wf(#[trigger] tail[i]) by {
            assert(tail[i] == h[i + 1]);
        }
        lemma_decode_encode_changes(tail);
        lemma_decode_change_of_encoding(h[0], encode_changes(tail));
        let b = encode_changes(h);
        let n = encode_change(h[0]).len();
        assert(b.subrange(n as int, b.len() as int) =~= encode_changes(tail));
        assert(seq![h[0]] + tail =~= h);
    }
}

/// Decoding the encoding of a history of well-formed changes gives back the history.
pub proof fn lemma_decode_encode(h: Seq<ChangeView>)
    requires
        h.len() > 0,
        forall|i: int| 0 <= i < h.len() ==> change_wf(#[trigger] h[i]),
    ensures
        decode_history(encode_history(h)) == Some(h),
{
    lemma_decode_encode_changes(h);
    assert(encode_history(h).drop_first() =~= encode_changes(h));
}

proof fn lemma_encode_decode_changes(b: Seq<u8>)
    requires
        decode_changes(b) is Some,
    ensures
        encode_changes(decode_changes(b)->Some_0) == b,
    decreases b.len(),
{
    if b.len() == 0 {
        assert(encode_changes(Seq::<ChangeView>::empty()) =~= b);
    } else {
        let (c, n) = decode_change(b)->Some_0;
        let tail = b.subrange(n as int, b.len() as int);
        lemma_encode_decode_changes(tail);
        let h = decode_changes(b)->Some_0;
        let rest = decode_changes(tail)->Some_0;
        assert(h == seq![c] + rest);
        assert(h[0] == c);
        assert(h.drop_first() =~= rest);
        assert(encode_change(c) =~= b.subrange(0, n as int));
        assert(b =~= b.subrange(0, n as int) + tail);
    }
}

/// A buffer that decodes to a history is exactly the encoding of that history.
pub proof fn lemma_encode_decode(b: Seq<u8>)
    requires
        decode_history(b) is Some,
    ensures
        encode_history(decode_history(b)->Some_0) == b,
{
    lemma_encode_decode_changes(b.drop_first());
    assert(b =~= seq![FORMAT_VERSION] + b.drop_first());
}

proof fn lemma_encode_changes_push(h: Seq<ChangeView>, c: ChangeView)
    ensures
        encode_changes(h.push(c)) == encode_changes(h) + encode_change(c),
    decreases h.len(),
{
    if h.len() == 0 {
        assert(h.push(c).drop_first() =~= Seq::<ChangeView>::empty());
        assert(encode_changes(Seq::<ChangeView>::empty()) =~= Seq::<u8>::empty());
        assert(h.push(c)[0] == c);
        assert(encode_changes(h.push(c)) =~= encode_change(c));
    } else {
        lemma_encode_changes_push(h.drop_first(), c);
        assert(h.push(c).drop_first() =~= h.drop_first().push(c));
        assert(encode_changes(h.push(c)) =~= encode_changes(h) + encode_change(c));
    }
}

impl ChangeHistory {
    /// The wire encoding of this history.
    pub fn encode(&self) -> (r: Vec<u8>)
        ensures
            r@ == encode_history(self@),
    {
        let mut out: Vec<u8> = Vec::new();
        out.push(FORMAT_VERSION);
        let mut i: usize = 0;
        while i < self.changes.len()
            invariant
                i <= self.changes@.len(),
                out@ == seq![FORMAT_VERSION] + encode_changes(self@.take(i as int)),
            decreases self.changes@.len() - i,
        {
            let c = &self.changes[i];
            let data = c.signed_data();
            append_bytes(&mut out, data.as_slice());
            append_bytes(&mut out, c.signature.as_slice());
            proof {
                lemma_encode_changes_push(self@.take(i as int), c@);
                assert(self@.take(i as int).push(c@) =~= self@.take(i + 1));
            }
            i = i + 1;
        }
        assert(self@.take(i as int) =~= self@);
        out
    }

    /// Decode a change history from its wire encoding.
    pub fn decode(data: &[u8]) -> (r: Option<ChangeHistory>)
        ensures
            match decode_history(data@) {
                Some(h) => r matches Some(hist) && hist@ == h,
                None => r is None,
            },
    {
        if data.len() == 0 || data[0] != FORMAT_VERSION {
            return None;
        }
        let ghost body = data@.drop_first();
        let mut changes: Vec<Change> = Vec::new();
        let mut pos: usize = 1;
        while pos < data.len()
            invariant
                1 <= pos <= data@.len(),
                body == data@.drop_first(),
                decode_changes(body) == match decode_changes(
                    data@.subrange(pos as int, data@.len() as int),
                ) {
                    Some(rest) => Some(changes@.map_values(|c: Change| c@) + rest),
                    None => None,
                },
            decreases data@.len() - pos,
        {
            let ghost cur = data@.subrange(pos as int, data@.len() as int);
            let remaining = data.len() - pos;
            let tag = data[pos];
            let c;
            let n: usize;
            if remaining >= ROOT_RECORD_LEN && tag == ROOT_TAG {
                c = Change {
                    previous: None,
                    public_key: copy_range(data, pos + 1, pos + 1 + KEY_LEN),
                    signature: copy_range(data, pos + 1 + KEY_LEN, pos + ROOT_RECORD_LEN),
                };
                n = ROOT_RECORD_LEN;
            } else if remaining >= NEXT_RECORD_LEN && tag == NEXT_TAG {
                c = Change {
                    previous: Some(copy_range(data, pos + 1, pos + 1 + CHANGE_HASH_LEN)),
                    public_key: copy_range(
                        data,
                        pos + 1 + CHANGE_HASH_LEN,
                        pos + 1 + CHANGE_HASH_LEN + KEY_LEN,
                    ),
                    signature: copy_range(
                        data,
                        pos + 1 + CHANGE_HASH_LEN + KEY_LEN,
                        pos + NEXT_RECORD_LEN,
                    ),
                };
                n = NEXT_RECORD_LEN;
            } else {
                assert(decode_change(cur) is None);
                return None;
            }
            proof {
                assert(decode_change(cur) == Some((c@, n as nat))) by {
                    if n == ROOT_RECORD_LEN {
                        assert(c@.public_key =~= cur.subrange(1, 1 + KEY_LEN));
                        assert(c@.signature =~= cur.subrange(1 + KEY_LEN, ROOT_RECORD_LEN as int));
                    } else {
                        assert(c@.previous->Some_0 =~= cur.subrange(1, 1 + CHANGE_HASH_LEN));
                        assert(c@.public_key =~= cur.subrange(
                            1 + CHANGE_HASH_LEN,
                            1 + CHANGE_HASH_LEN + KEY_LEN,
                        ));
                        assert(c@.signature =~= cur.subrange(
                            1 + CHANGE_HASH_LEN + KEY_LEN,
                            NEXT_RECORD_LEN as int,
                        ));
                    }
                }
                assert(cur.subrange(n as int, cur.len() as int) =~= data@.subrange(
                    pos + n,
                    data@.len() as int,
                ));
            }
            let ghost before = changes@.map_values(|c: Change| c@);
            changes.push(c);
            proof {
                assert(changes@.map_values(|c: Change| c@) =~= before.push(c@));
                match decode_changes(data@.subrange(pos + n, data@.len() as int)) {
                    Some(rest) => {
                        assert(before + (seq![c@] + rest) =~= before.push(c@) + rest);
                    },
                    None => {},
                }
            }
            pos = pos + n;
        }
        assert(data@.subrange(pos as int, data@.len() as int) =~= Seq::<u8>::empty());
        assert(changes@.map_values(|c: Change| c@) + Seq::<ChangeView>::empty()
            =~= changes@.map_values(|c: Change| c@));
        if changes.len() == 0 {
            return None;
        }
        Some(ChangeHistory { changes })
    }
}

} // verus!
