use vstd::prelude::*;
use crate::batch::{Batch, BatchView, Certificate, CertificateView};
use crate::errors::Error;
use crate::signature::Signature;
use crate::transmission::{copy_bytes, Transmission, TransmissionId, TransmissionView};

verus! {

/// Wire tag for the transaction variant of an identifier or payload.
pub const TAG_TRANSACTION: u64 = 0;

/// Wire tag for the prover-solution variant of an identifier or payload.
pub const TAG_SOLUTION: u64 = 1;

/// The canonical little-endian encoding of a 64-bit word.
pub open spec fn spec_enc_u64(x: u64) -> Seq<u8> {
    seq![
        (x & 0xff) as u8,
        ((x >> 8) & 0xff) as u8,
        ((x >> 16) & 0xff) as u8,
        ((x >> 24) & 0xff) as u8,
        ((x >> 32) & 0xff) as u8,
        ((x >> 40) & 0xff) as u8,
        ((x >> 48) & 0xff) as u8,
        ((x >> 56) & 0xff) as u8,
    ]
}

/// The word read back from eight little-endian bytes at position `pos`.
pub open spec fn spec_dec_u64(s: Seq<u8>, pos: int) -> u64
    recommends
        0 <= pos,
        pos + 8 <= s.len(),
{
    (s[pos] as u64) | ((s[pos + 1] as u64) << 8) | ((s[pos + 2] as u64) << 16)
        | ((s[pos + 3] as u64) << 24) | ((s[pos + 4] as u64) << 32)
        | ((s[pos + 5] as u64) << 40) | ((s[pos + 6] as u64) << 48)
        | ((s[pos + 7] as u64) << 56)
}

/// Decoding inverts encoding: where eight bytes of a stream hold the
/// encoding of a word, reading them back yields that word.
pub proof fn lemma_dec_enc_u64(x: u64, s: Seq<u8>, pos: int)
    requires
        0 <= pos,
        pos + 8 <= s.len(),
        s.subrange(pos, pos + 8) =~= spec_enc_u64(x),
    ensures
        spec_dec_u64(s, pos) == x,
{
    assert(s[pos] == (x & 0xff) as u8);
    assert(s[pos + 1] == ((x >> 8) & 0xff) as u8);
    assert(s[pos + 2] == ((x >> 16) & 0xff) as u8);
    assert(s[pos + 3] == ((x >> 24) & 0xff) as u8);
    assert(s[pos + 4] == ((x >> 32) & 0xff) as u8);
    assert(s[pos + 5] == ((x >> 40) & 0xff) as u8);
    assert(s[pos + 6] == ((x >> 48) & 0xff) as u8);
    assert(s[pos + 7] == ((x >> 56) & 0xff) as u8);
    assert(((x & 0xff) as u8 as u64) | (((x >> 8) & 0xff) as u8 as u64) << 8
        | (((x >> 16) & 0xff) as u8 as u64) << 16 | (((x >> 24) & 0xff) as u8 as u64) << 24
        | (((x >> 32) & 0xff) as u8 as u64) << 32 | (((x >> 40) & 0xff) as u8 as u64) << 40
        | (((x >> 48) & 0xff) as u8 as u64) << 48 | (((x >> 56) & 0xff) as u8 as u64) << 56
        == x) by (bit_vector);
}

/// Appends the canonical encoding of a word to a byte buffer.
pub fn push_u64(buf: &mut Vec<u8>, x: u64)
    ensures
        final(buf)@ == old(buf)@ + spec_enc_u64(x),
{
    buf.push((x & 0xff) as u8);
    buf.push(((x >> 8) & 0xff) as u8);
    buf.push(((x >> 16) & 0xff) as u8);
    buf.push(((x >> 24) & 0xff) as u8);
    buf.push(((x >> 32) & 0xff) as u8);
    buf.push(((x >> 40) & 0xff) as u8);
    buf.push(((x >> 48) & 0xff) as u8);
    buf.push(((x >> 56) & 0xff) as u8);
    proof {
        assert(buf@ =~= old(buf)@ + spec_enc_u64(x));
    }
}

/// Reads the word encoded at position `pos` of a byte buffer.
pub fn read_u64(bytes: &Vec<u8>, pos: usize) -> (r: u64)
    requires
        pos + 8 <= bytes@.len(),
    ensures
        r == spec_dec_u64(bytes@, pos as int),
{
    let len = bytes.len();
    assert(pos + 8 <= len);
    (bytes[pos] as u64) | ((bytes[pos + 1] as u64) << 8) | ((bytes[pos + 2] as u64) << 16)
        | ((bytes[pos + 3] as u64) << 24) | ((bytes[pos + 4] as u64) << 32)
        | ((bytes[pos + 5] as u64) << 40) | ((bytes[pos + 6] as u64) << 48)
        | ((bytes[pos + 7] as u64) << 56)
}

/// The canonical encoding of a transmission identifier: a tag word and the
/// identifier's value.
pub open spec fn spec_enc_tid(t: TransmissionId) -> Seq<u8> {
    match t {
        TransmissionId::Transaction(v) => spec_enc_u64(TAG_TRANSACTION) + spec_enc_u64(v),
        TransmissionId::Solution(v) => spec_enc_u64(TAG_SOLUTION) + spec_enc_u64(v),
    }
}

/// The canonical encoding of a transmission payload: a tag word, the payload
/// length, and the payload bytes.
pub open spec fn spec_enc_transmission(t: TransmissionView) -> Seq<u8> {
    match t {
        TransmissionView::Transaction(data) => spec_enc_u64(TAG_TRANSACTION) + spec_enc_u64(
            data.len() as u64,
        ) + data,
        TransmissionView::Solution(data) => spec_enc_u64(TAG_SOLUTION) + spec_enc_u64(
            data.len() as u64,
        ) + data,
    }
}

/// The canonical encoding of one buffered item: its identifier, then its
/// payload.
pub open spec fn spec_enc_item(item: (TransmissionId, TransmissionView)) -> Seq<u8> {
    spec_enc_tid(item.0) + spec_enc_transmission(item.1)
}

/// The canonical encoding of a list of items, in order.
pub open spec fn spec_enc_items(items: Seq<(TransmissionId, TransmissionView)>) -> Seq<u8>
    decreases items.len(),
{
    if items.len() == 0 {
        Seq::empty()
    } else {
        spec_enc_item(items[0]) + spec_enc_items(items.drop_first())
    }
}

/// The canonical encoding of a list of certificate identifiers, in order.
pub open spec fn spec_enc_ids(ids: Seq<u64>) -> Seq<u8>
    decreases ids.len(),
{
    if ids.len() == 0 {
        Seq::empty()
    } else {
        spec_enc_u64(ids[0]) + spec_enc_ids(ids.drop_first())
    }
}

/// The signed content of a batch: everything the batch identifier digests.
pub open spec fn spec_content_bytes(
    author: u64,
    round: u64,
    timestamp: u64,
    items: Seq<(TransmissionId, TransmissionView)>,
    cert_ids: Seq<u64>,
) -> Seq<u8> {
    spec_enc_u64(author) + spec_enc_u64(round) + spec_enc_u64(timestamp) + spec_enc_u64(
        items.len() as u64,
    ) + spec_enc_items(items) + spec_enc_u64(cert_ids.len() as u64) + spec_enc_ids(cert_ids)
}

/// Appending one item on the right extends the encoding on the right.
pub proof fn lemma_enc_items_snoc(
    items: Seq<(TransmissionId, TransmissionView)>,
    item: (TransmissionId, TransmissionView),
)
    ensures
        spec_enc_items(items.push(item)) == spec_enc_items(items) + spec_enc_item(item),
    decreases items.len(),
{
    reveal_with_fuel(spec_enc_items, 3);
    if items.len() == 0 {
        assert(items.push(item)[0] == item);
        assert(items.push(item).drop_first() =~= Seq::<(TransmissionId, TransmissionView)>::empty());
        assert(spec_enc_items(items.push(item)) =~= spec_enc_items(items) + spec_enc_item(item));
    } else {
        assert(items.push(item)[0] == items[0]);
        assert(items.push(item).drop_first() =~= items.drop_first().push(item));
        lemma_enc_items_snoc(items.drop_first(), item);
        assert(spec_enc_items(items.push(item)) =~= spec_enc_items(items) + spec_enc_item(item));
    }
}

/// Appending one identifier on the right extends the encoding on the right.
pub proof fn lemma_enc_ids_snoc(ids: Seq<u64>, id: u64)
    ensures
        spec_enc_ids(ids.push(id)) == spec_enc_ids(ids) + spec_enc_u64(id),
    decreases ids.len(),
{
    reveal_with_fuel(spec_enc_ids, 3);
    if ids.len() == 0 {
        assert(ids.push(id)[0] == id);
        assert(ids.push(id).drop_first() =~= Seq::<u64>::empty());
        assert(spec_enc_ids(ids.push(id)) =~= spec_enc_ids(ids) + spec_enc_u64(id));
    } else {
        assert(ids.push(id)[0] == ids[0]);
        assert(ids.push(id).drop_first() =~= ids.drop_first().push(id));
        lemma_enc_ids_snoc(ids.drop_first(), id);
        assert(spec_enc_ids(ids.push(id)) =~= spec_enc_ids(ids) + spec_enc_u64(id));
    }
}

/// Appends the bytes of one buffer to another.
pub fn append_bytes(buf: &mut Vec<u8>, data: &Vec<u8>)
    ensures
        final(buf)@ == old(buf)@ + data@,
{
    let mut i: usize = 0;
    while i < data.len()
        invariant
            i <= data.len(),
            buf@ == old(buf)@ + data@.take(i as int),
        decreases data.len() - i,
    {
        buf.push(data[i]);
        proof {
            assert(old(buf)@ + data@.take(i + 1) =~= (old(buf)@ + data@.take(i as int)).push(
                data@[i as int],
            ));
        }
        i = i + 1;
    }
    proof {
        assert(data@.take(data@.len() as int) =~= data@);
    }
}

/// Appends the canonical encoding of a transmission identifier.
pub fn push_tid(buf: &mut Vec<u8>, t: &TransmissionId)
    ensures
        final(buf)@ == old(buf)@ + spec_enc_tid(*t),
{
    match t {
        TransmissionId::Transaction(v) => {
            push_u64(buf, TAG_TRANSACTION);
            push_u64(buf, *v);
        },
        TransmissionId::Solution(v) => {
            push_u64(buf, TAG_SOLUTION);
            push_u64(buf, *v);
        },
    }
    proof {
        assert(buf@ =~= old(buf)@ + spec_enc_tid(*t));
    }
}

/// Appends the canonical encoding of a transmission payload.
pub fn push_transmission(buf: &mut Vec<u8>, t: &Transmission)
    ensures
        final(buf)@ == old(buf)@ + spec_enc_transmission(t@),
{
    match t {
        Transmission::Transaction(data) => {
            push_u64(buf, TAG_TRANSACTION);
            push_u64(buf, data.len() as u64);
            append_bytes(buf, data);
        },
        Transmission::Solution(data) => {
            push_u64(buf, TAG_SOLUTION);
            push_u64(buf, data.len() as u64);
            append_bytes(buf, data);
        },
    }
    proof {
        assert(buf@ =~= old(buf)@ + spec_enc_transmission(t@));
    }
}

/// The view of a list of buffered items: each payload replaced by its view.
pub open spec fn spec_items_view(s: Seq<(TransmissionId, Transmission)>) -> Seq<
    (TransmissionId, TransmissionView),
> {
    s.map_values(|p: (TransmissionId, Transmission)| (p.0, p.1@))
}

/// Serializes the signed content of a batch.
pub fn serialize_content(
    author: u64,
    round: u64,
    timestamp: u64,
    items: &Vec<(TransmissionId, Transmission)>,
    cert_ids: &Vec<u64>,
) -> (r: Vec<u8>)
    ensures
        r@ == spec_content_bytes(author, round, timestamp, spec_items_view(items@), cert_ids@),
{
    let ghost iv = spec_items_view(items@);
    let mut buf: Vec<u8> = Vec::new();
    push_u64(&mut buf, author);
    push_u64(&mut buf, round);
    push_u64(&mut buf, timestamp);
    push_u64(&mut buf, items.len() as u64);
    let ghost head = buf@;
    let mut i: usize = 0;
    while i < items.len()
        invariant
            i <= items.len(),
            iv == spec_items_view(items@),
            iv.len() == items@.len(),
            buf@ == head + spec_enc_items(iv.take(i as int)),
        decreases items.len() - i,
    {
        push_tid(&mut buf, &items[i].0);
        push_transmission(&mut buf, &items[i].1);
        proof {
            assert(iv.take(i + 1) =~= iv.take(i as int).push(iv[i as int]));
            lemma_enc_items_snoc(iv.take(i as int), iv[i as int]);
            assert(iv[i as int] == (items@[i as int].0, items@[i as int].1@));
            assert(buf@ =~= head + spec_enc_items(iv.take(i + 1)));
        }
        i = i + 1;
    }
    proof {
        assert(iv.take(iv.len() as int) =~= iv);
    }
    push_u64(&mut buf, cert_ids.len() as u64);
    let ghost mid = buf@;
    let mut j: usize = 0;
    while j < cert_ids.len()
        invariant
            j <= cert_ids.len(),
            buf@ == mid + spec_enc_ids(cert_ids@.take(j as int)),
        decreases cert_ids.len() - j,
    {
        push_u64(&mut buf, cert_ids[j]);
        proof {
            assert(cert_ids@.take(j + 1) =~= cert_ids@.take(j as int).push(cert_ids@[j as int]));
            lemma_enc_ids_snoc(cert_ids@.take(j as int), cert_ids@[j as int]);
            assert(buf@ =~= mid + spec_enc_ids(cert_ids@.take(j + 1)));
        }
        j = j + 1;
    }
    proof {
        assert(cert_ids@.take(cert_ids@.len() as int) =~= cert_ids@);
        assert(buf@ =~= spec_content_bytes(
            author,
            round,
            timestamp,
            spec_items_view(items@),
            cert_ids@,
        ));
    }
    buf
}


/// Reads the transmission identifier encoded at `pos`, if one is there.
pub open spec fn spec_parse_tid(s: Seq<u8>, pos: int) -> Option<(TransmissionId, int)> {
    if 0 <= pos && pos + 16 <= s.len() {
        let tag = spec_dec_u64(s, pos);
        let v = spec_dec_u64(s, pos + 8);
        if tag == TAG_TRANSACTION {
            Some((TransmissionId::Transaction(v), pos + 16))
        } else if tag == TAG_SOLUTION {
            Some((TransmissionId::Solution(v), pos + 16))
        } else {
            None
        }
    } else {
        None
    }
}

/// Reads the transmission payload encoded at `pos`, if one is there.
pub open spec fn spec_parse_transmission(s: Seq<u8>, pos: int) -> Option<(TransmissionView, int)> {
    if 0 <= pos && pos + 16 <= s.len() {
        let tag = spec_dec_u64(s, pos);
        let len = spec_dec_u64(s, pos + 8) as int;
        if pos + 16 + len <= s.len() {
            let data = s.subrange(pos + 16, pos + 16 + len);
            if tag == TAG_TRANSACTION {
                Some((TransmissionView::Transaction(data), pos + 16 + len))
            } else if tag == TAG_SOLUTION {
                Some((TransmissionView::Solution(data), pos + 16 + len))
            } else {
                None
            }
        } else {
            None
        }
    } else {
        None
    }
}

/// Reads one buffered item: an identifier, then a payload.
pub open spec fn spec_parse_item(s: Seq<u8>, pos: int) -> Option<
    ((TransmissionId, TransmissionView), int),
> {
    match spec_parse_tid(s, pos) {
        Option::None => None,
        Option::Some((tid, p)) => match spec_parse_transmission(s, p) {
            Option::None => None,
            Option::Some((tv, q)) => Some(((tid, tv), q)),
        },
    }
}

/// Reads `n` buffered items in order.
pub open spec fn spec_parse_items(s: Seq<u8>, pos: int, n: nat) -> Option<
    (Seq<(TransmissionId, TransmissionView)>, int),
>
    decreases n,
{
    if n == 0 {
        Some((Seq::empty(), pos))
    } else {
        match spec_parse_item(s, pos) {
            Option::None => None,
            Option::Some((item, p)) => match spec_parse_items(s, p, (n - 1) as nat) {
                Option::None => None,
                Option::Some((rest, q)) => Some((seq![item] + rest, q)),
            },
        }
    }
}

/// Reads `n` certificate identifiers in order.
pub open spec fn spec_parse_ids(s: Seq<u8>, pos: int, n: nat) -> Option<(Seq<u64>, int)>
    decreases n,
{
    if n == 0 {
        Some((Seq::empty(), pos))
    } else if 0 <= pos && pos + 8 <= s.len() {
        let id = spec_dec_u64(s, pos);
        match spec_parse_ids(s, pos + 8, (n - 1) as nat) {
            Option::None => None,
            Option::Some((rest, q)) => Some((seq![id] + rest, q)),
        }
    } else {
        None
    }
}

/// A successful item parse lands between its start and the end of the stream.
pub proof fn lemma_parse_item_pos(s: Seq<u8>, pos: int)
    requires
        spec_parse_item(s, pos) is Some,
    ensures
        pos + 32 <= spec_parse_item(s, pos).unwrap().1 <= s.len(),
{
}

/// Parsing one more item extends a successful parse by that item.
pub proof fn lemma_parse_items_append(
    s: Seq<u8>,
    pos: int,
    xs: Seq<(TransmissionId, TransmissionView)>,
    p: int,
    a: nat,
)
    requires
        spec_parse_items(s, pos, a) == Some((xs, p)),
        spec_parse_item(s, p) is Some,
    ensures
        spec_parse_items(s, pos, (a + 1) as nat) == Some(
            (xs.push(spec_parse_item(s, p).unwrap().0), spec_parse_item(s, p).unwrap().1),
        ),
    decreases a,
{
    let (it, q) = spec_parse_item(s, p).unwrap();
    if a == 0 {
        assert(xs == Seq::<(TransmissionId, TransmissionView)>::empty() && p == pos);
        assert(spec_parse_items(s, q, 0) == Some(
            (Seq::<(TransmissionId, TransmissionView)>::empty(), q),
        ));
        assert(seq![it] + Seq::<(TransmissionId, TransmissionView)>::empty() =~= xs.push(it));
    } else {
        let (it0, p1) = spec_parse_item(s, pos).unwrap();
        let (rest, pr) = spec_parse_items(s, p1, (a - 1) as nat).unwrap();
        assert(xs == seq![it0] + rest && pr == p);
        lemma_parse_items_append(s, p1, rest, p, (a - 1) as nat);
        assert(seq![it0] + rest.push(it) =~= xs.push(it));
    }
}

/// A parse that has gone well so far fails overall once the next item fails.
pub proof fn lemma_parse_items_fail(
    s: Seq<u8>,
    pos: int,
    xs: Seq<(TransmissionId, TransmissionView)>,
    p: int,
    a: nat,
    n: nat,
)
    requires
        spec_parse_items(s, pos, a) == Some((xs, p)),
        spec_parse_item(s, p) is None,
        a < n,
    ensures
        spec_parse_items(s, pos, n) is None,
    decreases a,
{
    if a == 0 {
        assert(p == pos);
    } else {
        let (it0, p1) = spec_parse_item(s, pos).unwrap();
        let (rest, pr) = spec_parse_items(s, p1, (a - 1) as nat).unwrap();
        lemma_parse_items_fail(s, p1, rest, p, (a - 1) as nat, (n - 1) as nat);
    }
}

/// Parsing one more identifier extends a successful parse by it.
pub proof fn lemma_parse_ids_append(s: Seq<u8>, pos: int, xs: Seq<u64>, p: int, a: nat)
    requires
        spec_parse_ids(s, pos, a) == Some((xs, p)),
        0 <= p,
        p + 8 <= s.len(),
    ensures
        spec_parse_ids(s, pos, (a + 1) as nat) == Some((xs.push(spec_dec_u64(s, p)), p + 8)),
    decreases a,
{
    reveal_with_fuel(spec_parse_ids, 3);
    let id = spec_dec_u64(s, p);
    if a == 0 {
        assert(xs == Seq::<u64>::empty() && p == pos);
        assert(spec_parse_ids(s, p + 8, 0) == Some((Seq::<u64>::empty(), p + 8)));
        assert(seq![id] + Seq::<u64>::empty() =~= xs.push(id));
    } else {
        let id0 = spec_dec_u64(s, pos);
        let (rest, pr) = spec_parse_ids(s, pos + 8, (a - 1) as nat).unwrap();
        assert(xs == seq![id0] + rest && pr == p);
        lemma_parse_ids_append(s, pos + 8, rest, p, (a - 1) as nat);
        assert(seq![id0] + rest.push(id) =~= xs.push(id));
    }
}

/// An identifier parse that has gone well so far fails overall once the
/// stream runs out.
pub proof fn lemma_parse_ids_fail(s: Seq<u8>, pos: int, xs: Seq<u64>, p: int, a: nat, n: nat)
    requires
        spec_parse_ids(s, pos, a) == Some((xs, p)),
        !(0 <= p && p + 8 <= s.len()),
        a < n,
    ensures
        spec_parse_ids(s, pos, n) is None,
    decreases a,
{
    if a == 0 {
        assert(p == pos);
    } else {
        let (rest, pr) = spec_parse_ids(s, pos + 8, (a - 1) as nat).unwrap();
        lemma_parse_ids_fail(s, pos + 8, rest, p, (a - 1) as nat, (n - 1) as nat);
    }
}


/// The canonical wire encoding of a batch: its signed content, then the
/// batch identifier, then the author's signature.
pub open spec fn spec_serialize_batch(b: BatchView) -> Seq<u8> {
    b.content_bytes() + spec_enc_u64(b.batch_id) + spec_enc_u64(b.author_signature.signer)
        + spec_enc_u64(b.author_signature.message)
}

/// Reads a batch from its canonical wire encoding. Nothing beyond the shape
/// of the bytes is checked here: validating a peer's batch is the store's
/// concern, not the codec's.
pub open spec fn spec_parse_batch(s: Seq<u8>) -> Option<BatchView> {
    if s.len() >= 32 {
        let author = spec_dec_u64(s, 0);
        let round = spec_dec_u64(s, 8);
        let timestamp = spec_dec_u64(s, 16);
        let n = spec_dec_u64(s, 24);
        match spec_parse_items(s, 32, n as nat) {
            Option::None => None,
            Option::Some((items, p)) => if p + 8 <= s.len() {
                let m = spec_dec_u64(s, p);
                match spec_parse_ids(s, p + 8, m as nat) {
                    Option::None => None,
                    Option::Some((ids, q)) => if q + 24 == s.len() {
                        Some(
                            BatchView {
                                author,
                                round,
                                timestamp,
                                transmissions: items,
                                previous_certificate_ids: ids,
                                batch_id: spec_dec_u64(s, q),
                                author_signature: Signature {
                                    signer: spec_dec_u64(s, q + 8),
                                    message: spec_dec_u64(s, q + 16),
                                },
                            },
                        )
                    } else {
                        None
                    },
                }
            } else {
                None
            },
        }
    } else {
        None
    }
}

/// Serializes a batch into its canonical wire encoding.
pub fn serialize_batch(b: &Batch) -> (r: Vec<u8>)
    ensures
        r@ == spec_serialize_batch(b@),
{
    let mut buf = serialize_content(
        b.author,
        b.round,
        b.timestamp,
        &b.transmissions,
        &b.previous_certificate_ids,
    );
    push_u64(&mut buf, b.batch_id);
    push_u64(&mut buf, b.author_signature.signer);
    push_u64(&mut buf, b.author_signature.message);
    proof {
        assert(buf@ =~= spec_serialize_batch(b@));
    }
    buf
}

/// Copies the bytes between `start` and `end` out of a buffer.
fn copy_range(bytes: &Vec<u8>, start: usize, end: usize) -> (r: Vec<u8>)
    requires
        start <= end <= bytes@.len(),
    ensures
        r@ == bytes@.subrange(start as int, end as int),
{
    let mut out: Vec<u8> = Vec::new();
    let mut i: usize = start;
    while i < end
        invariant
            start <= i <= end <= bytes@.len(),
            out@ == bytes@.subrange(start as int, i as int),
        decreases end - i,
    {
        out.push(bytes[i]);
        proof {
            assert(bytes@.subrange(start as int, i + 1) =~= bytes@.subrange(
                start as int,
                i as int,
            ).push(bytes@[i as int]));
        }
        i = i + 1;
    }
    out
}

/// Reads a transmission identifier out of a buffer.
fn parse_tid(bytes: &Vec<u8>, pos: usize) -> (r: Option<(TransmissionId, usize)>)
    requires
        pos <= bytes@.len(),
    ensures
        match spec_parse_tid(bytes@, pos as int) {
            Option::Some((t, q)) => r is Some && r.unwrap().0 == t && r.unwrap().1 == q,
            Option::None => r is None,
        },
{
    if bytes.len() - pos < 16 {
        return None;
    }
    let tag = read_u64(bytes, pos);
    let v = read_u64(bytes, pos + 8);
    if tag == TAG_TRANSACTION {
        Some((TransmissionId::Transaction(v), pos + 16))
    } else if tag == TAG_SOLUTION {
        Some((TransmissionId::Solution(v), pos + 16))
    } else {
        None
    }
}

/// Reads a transmission payload out of a buffer.
fn parse_transmission(bytes: &Vec<u8>, pos: usize) -> (r: Option<(Transmission, usize)>)
    requires
        pos <= bytes@.len(),
    ensures
        match spec_parse_transmission(bytes@, pos as int) {
            Option::Some((tv, q)) => r is Some && r.unwrap().0@ == tv && r.unwrap().1 == q,
            Option::None => r is None,
        },
{
    if bytes.len() - pos < 16 {
        return None;
    }
    let tag = read_u64(bytes, pos);
    let len = read_u64(bytes, pos + 8);
    let remaining = bytes.len() - pos - 16;
    if len > remaining as u64 {
        return None;
    }
    let data_len = len as usize;
    let data = copy_range(bytes, pos + 16, pos + 16 + data_len);
    if tag == TAG_TRANSACTION {
        Some((Transmission::Transaction(data), pos + 16 + data_len))
    } else if tag == TAG_SOLUTION {
        Some((Transmission::Solution(data), pos + 16 + data_len))
    } else {
        None
    }
}

/// Reads one buffered item out of a buffer.
fn parse_item(bytes: &Vec<u8>, pos: usize) -> (r: Option<((TransmissionId, Transmission), usize)>)
    requires
        pos <= bytes@.len(),
    ensures
        match spec_parse_item(bytes@, pos as int) {
            Option::Some((item, q)) => r is Some && r.unwrap().0.0 == item.0 && r.unwrap().0.1@
                == item.1 && r.unwrap().1 == q,
            Option::None => r is None,
        },
{
    let (tid, p) = match parse_tid(bytes, pos) {
        Option::Some(x) => x,
        Option::None => {
            return None;
        },
    };
    proof {
        lemma_parse_item_pos_tid(bytes@, pos as int);
    }
    let (tv, q) = match parse_transmission(bytes, p) {
        Option::Some(x) => x,
        Option::None => {
            return None;
        },
    };
    Some(((tid, tv), q))
}

/// A successful identifier parse lands inside the stream.
proof fn lemma_parse_item_pos_tid(s: Seq<u8>, pos: int)
    requires
        spec_parse_tid(s, pos) is Some,
    ensures
        pos <= spec_parse_tid(s, pos).unwrap().1 <= s.len(),
{
}

/// Deserializes a batch from its canonical wire encoding. Succeeds exactly
/// on byte streams the wire grammar accepts, and returns exactly the batch
/// the stream encodes.
#[verifier::loop_isolation(false)]
pub fn deserialize_batch(bytes: &Vec<u8>) -> (r: Result<Batch, Error>)
    ensures
        spec_parse_batch(bytes@) is Some ==> r is Ok && r.unwrap()@ == spec_parse_batch(
            bytes@,
        ).unwrap(),
        spec_parse_batch(bytes@) is None ==> r == Result::<Batch, Error>::Err(
            Error::MalformedBatch,
        ),
{
    let ghost s = bytes@;
    if bytes.len() < 32 {
        return Err(Error::MalformedBatch);
    }
    let author = read_u64(bytes, 0);
    let round = read_u64(bytes, 8);
    let timestamp = read_u64(bytes, 16);
    let n = read_u64(bytes, 24);

    let mut acc: Vec<(TransmissionId, Transmission)> = Vec::new();
    let mut pos: usize = 32;
    let mut i: u64 = 0;
    while i < n
        invariant
            s == bytes@,
            i <= n,
            pos <= bytes@.len(),
            spec_parse_items(s, 32, i as nat) == Some(
                (spec_items_view(acc@), pos as int),
            ),
        decreases n - i,
    {
        match parse_item(bytes, pos) {
            Option::Some(((tid, trans), q)) => {
                proof {
                    lemma_parse_items_append(s, 32, spec_items_view(acc@), pos as int, i as nat);
                    lemma_parse_item_pos(s, pos as int);
                    assert(spec_items_view(acc@.push((tid, trans))) =~= spec_items_view(
                        acc@,
                    ).push((tid, trans@)));
                }
                acc.push((tid, trans));
                pos = q;
            },
            Option::None => {
                proof {
                    lemma_parse_items_fail(
                        s,
                        32,
                        spec_items_view(acc@),
                        pos as int,
                        i as nat,
                        n as nat,
                    );
                }
                return Err(Error::MalformedBatch);
            },
        }
        i = i + 1;
    }
    let ghost items = spec_items_view(acc@);

    if bytes.len() - pos < 8 {
        return Err(Error::MalformedBatch);
    }
    let m = read_u64(bytes, pos);
    let ghost p_ids = pos + 8;
    let mut ids: Vec<u64> = Vec::new();
    let mut pos2: usize = pos + 8;
    let mut j: u64 = 0;
    while j < m
        invariant
            s == bytes@,
            j <= m,
            pos2 <= bytes@.len(),
            spec_parse_ids(s, p_ids, j as nat) == Some((ids@, pos2 as int)),
        decreases m - j,
    {
        if bytes.len() - pos2 < 8 {
            proof {
                lemma_parse_ids_fail(s, p_ids, ids@, pos2 as int, j as nat, m as nat);
            }
            return Err(Error::MalformedBatch);
        }
        let id = read_u64(bytes, pos2);
        proof {
            lemma_parse_ids_append(s, p_ids, ids@, pos2 as int, j as nat);
        }
        ids.push(id);
        pos2 = pos2 + 8;
        j = j + 1;
    }

    if bytes.len() - pos2 != 24 {
        return Err(Error::MalformedBatch);
    }
    let batch_id = read_u64(bytes, pos2);
    let signer = read_u64(bytes, pos2 + 8);
    let message = read_u64(bytes, pos2 + 16);
    Ok(
        Batch {
            author,
            round,
            timestamp,
            transmissions: acc,
            previous_certificate_ids: ids,
            batch_id,
            author_signature: Signature { signer, message },
        },
    )
}


/// The length of a payload's bytes.
pub open spec fn spec_payload_len(tv: TransmissionView) -> nat {
    match tv {
        TransmissionView::Transaction(data) => data.len(),
        TransmissionView::Solution(data) => data.len(),
    }
}

/// Every payload in the list fits the wire format's length word.
pub open spec fn payloads_bounded(items: Seq<(TransmissionId, TransmissionView)>) -> bool {
    forall|i: int|
        0 <= i < items.len() ==> spec_payload_len((#[trigger] items[i]).1) <= u64::MAX
}

/// Where a stretch of a stream holds the concatenation of two sequences,
/// its two halves hold the two sequences.
pub proof fn lemma_subrange_split(s: Seq<u8>, pos: int, x: Seq<u8>, y: Seq<u8>)
    requires
        0 <= pos,
        pos + x.len() + y.len() <= s.len(),
        s.subrange(pos, pos + x.len() + y.len()) == x + y,
    ensures
        s.subrange(pos, pos + x.len() as int) == x,
        s.subrange(pos + x.len() as int, pos + x.len() + y.len()) == y,
{
    let lx = x.len() as int;
    let lt = x.len() + y.len();
    assert forall|k: int| 0 <= k < lx implies s.subrange(pos, pos + lx)[k] == x[k] by {
        assert(s.subrange(pos, pos + lt)[k] == (x + y)[k]);
        assert(s.subrange(pos, pos + lx)[k] == s[pos + k]);
        assert(s.subrange(pos, pos + lt)[k] == s[pos + k]);
    }
    assert(s.subrange(pos, pos + lx) =~= x);
    assert forall|k: int| 0 <= k < y.len() implies s.subrange(pos + lx, pos + lt)[k] == y[k] by {
        assert(s.subrange(pos, pos + lt)[lx + k] == (x + y)[lx + k]);
        assert((x + y)[lx + k] == y[k]);
        assert(s.subrange(pos + lx, pos + lt)[k] == s[pos + lx + k]);
        assert(s.subrange(pos, pos + lt)[lx + k] == s[pos + lx + k]);
    }
    assert(s.subrange(pos + lx, pos + lt) =~= y);
}

/// Parsing inverts encoding for a transmission identifier.
pub proof fn lemma_parse_enc_tid(t: TransmissionId, s: Seq<u8>, pos: int)
    requires
        0 <= pos,
        pos + 16 <= s.len(),
        s.subrange(pos, pos + 16) == spec_enc_tid(t),
    ensures
        spec_parse_tid(s, pos) == Some((t, pos + 16)),
{
    match t {
        TransmissionId::Transaction(v) => {
            assert(spec_enc_tid(t) == spec_enc_u64(TAG_TRANSACTION) + spec_enc_u64(v));
            lemma_subrange_split(s, pos, spec_enc_u64(TAG_TRANSACTION), spec_enc_u64(v));
            lemma_dec_enc_u64(TAG_TRANSACTION, s, pos);
            lemma_dec_enc_u64(v, s, pos + 8);
        },
        TransmissionId::Solution(v) => {
            assert(spec_enc_tid(t) == spec_enc_u64(TAG_SOLUTION) + spec_enc_u64(v));
            lemma_subrange_split(s, pos, spec_enc_u64(TAG_SOLUTION), spec_enc_u64(v));
            lemma_dec_enc_u64(TAG_SOLUTION, s, pos);
            lemma_dec_enc_u64(v, s, pos + 8);
        },
    }
}

/// Parsing inverts encoding for a transmission payload.
pub proof fn lemma_parse_enc_transmission(tv: TransmissionView, s: Seq<u8>, pos: int)
    requires
        0 <= pos,
        pos + spec_enc_transmission(tv).len() <= s.len(),
        s.subrange(pos, pos + spec_enc_transmission(tv).len() as int) == spec_enc_transmission(tv),
        spec_payload_len(tv) <= u64::MAX,
    ensures
        spec_parse_transmission(s, pos) == Some((tv, pos + spec_enc_transmission(tv).len())),
{
    match tv {
        TransmissionView::Transaction(data) => {
            let head = spec_enc_u64(TAG_TRANSACTION) + spec_enc_u64(data.len() as u64);
            assert(spec_enc_transmission(tv) == head + data);
            lemma_subrange_split(s, pos, head, data);
            lemma_subrange_split(
                s,
                pos,
                spec_enc_u64(TAG_TRANSACTION),
                spec_enc_u64(data.len() as u64),
            );
            lemma_dec_enc_u64(TAG_TRANSACTION, s, pos);
            lemma_dec_enc_u64(data.len() as u64, s, pos + 8);
        },
        TransmissionView::Solution(data) => {
            let head = spec_enc_u64(TAG_SOLUTION) + spec_enc_u64(data.len() as u64);
            assert(spec_enc_transmission(tv) == head + data);
            lemma_subrange_split(s, pos, head, data);
            lemma_subrange_split(
                s,
                pos,
                spec_enc_u64(TAG_SOLUTION),
                spec_enc_u64(data.len() as u64),
            );
            lemma_dec_enc_u64(TAG_SOLUTION, s, pos);
            lemma_dec_enc_u64(data.len() as u64, s, pos + 8);
        },
    }
}

/// Parsing inverts encoding for one buffered item.
pub proof fn lemma_parse_enc_item(item: (TransmissionId, TransmissionView), s: Seq<u8>, pos: int)
    requires
        0 <= pos,
        pos + spec_enc_item(item).len() <= s.len(),
        s.subrange(pos, pos + spec_enc_item(item).len() as int) == spec_enc_item(item),
        spec_payload_len(item.1) <= u64::MAX,
    ensures
        spec_parse_item(s, pos) == Some((item, pos + spec_enc_item(item).len())),
{
    assert(spec_enc_item(item) == spec_enc_tid(item.0) + spec_enc_transmission(item.1));
    assert(spec_enc_tid(item.0).len() == 16);
    lemma_subrange_split(s, pos, spec_enc_tid(item.0), spec_enc_transmission(item.1));
    lemma_parse_enc_tid(item.0, s, pos);
    lemma_parse_enc_transmission(item.1, s, pos + 16);
}

/// Parsing inverts encoding for a list of buffered items.
pub proof fn lemma_parse_enc_items(
    items: Seq<(TransmissionId, TransmissionView)>,
    s: Seq<u8>,
    pos: int,
)
    requires
        0 <= pos,
        pos + spec_enc_items(items).len() <= s.len(),
        s.subrange(pos, pos + spec_enc_items(items).len() as int) == spec_enc_items(items),
        payloads_bounded(items),
    ensures
        spec_parse_items(s, pos, items.len()) == Some(
            (items, pos + spec_enc_items(items).len()),
        ),
    decreases items.len(),
{
    if items.len() == 0 {
        assert(items =~= Seq::<(TransmissionId, TransmissionView)>::empty());
    } else {
        let l0 = spec_enc_item(items[0]).len() as int;
        let rest = items.drop_first();
        assert(spec_enc_items(items) == spec_enc_item(items[0]) + spec_enc_items(rest));
        lemma_subrange_split(s, pos, spec_enc_item(items[0]), spec_enc_items(rest));
        lemma_parse_enc_item(items[0], s, pos);
        assert(payloads_bounded(rest)) by {
            assert(forall|i: int| 0 <= i < rest.len() ==> (#[trigger] rest[i]) == items[i + 1]);
        }
        lemma_parse_enc_items(rest, s, pos + l0);
        assert(seq![items[0]] + rest =~= items);
    }
}

/// Parsing inverts encoding for a list of certificate identifiers.
pub proof fn lemma_parse_enc_ids(ids: Seq<u64>, s: Seq<u8>, pos: int)
    requires
        0 <= pos,
        pos + spec_enc_ids(ids).len() <= s.len(),
        s.subrange(pos, pos + spec_enc_ids(ids).len() as int) == spec_enc_ids(ids),
    ensures
        spec_parse_ids(s, pos, ids.len()) == Some((ids, pos + spec_enc_ids(ids).len())),
    decreases ids.len(),
{
    if ids.len() == 0 {
        assert(ids =~= Seq::<u64>::empty());
    } else {
        let rest = ids.drop_first();
        assert(spec_enc_ids(ids) == spec_enc_u64(ids[0]) + spec_enc_ids(rest));
        lemma_subrange_split(s, pos, spec_enc_u64(ids[0]), spec_enc_ids(rest));
        lemma_dec_enc_u64(ids[0], s, pos);
        lemma_parse_enc_ids(rest, s, pos + 8);
        assert(seq![ids[0]] + rest =~= ids);
    }
}

/// Deserializing a serialized batch gives the batch back: the wire encoding
/// loses nothing. Holds of every batch whose item count, certificate count
/// and payload lengths fit the wire format's length words, as they do for
/// every batch held in memory.
#[verifier::rlimit(100)]
pub proof fn lemma_batch_round_trip(b: BatchView)
    requires
        b.transmissions.len() <= u64::MAX,
        b.previous_certificate_ids.len() <= u64::MAX,
        payloads_bounded(b.transmissions),
    ensures
        spec_parse_batch(spec_serialize_batch(b)) == Some(b),
{
    let s = spec_serialize_batch(b);
    let items = b.transmissions;
    let ids = b.previous_certificate_ids;
    let e_author = spec_enc_u64(b.author);
    let e_round = spec_enc_u64(b.round);
    let e_ts = spec_enc_u64(b.timestamp);
    let e_n = spec_enc_u64(items.len() as u64);
    let e_items = spec_enc_items(items);
    let e_m = spec_enc_u64(ids.len() as u64);
    let e_ids = spec_enc_ids(ids);
    let e_bid = spec_enc_u64(b.batch_id);
    let e_signer = spec_enc_u64(b.author_signature.signer);
    let e_msg = spec_enc_u64(b.author_signature.message);
    let li = e_items.len() as int;
    let lids = e_ids.len() as int;
    let p = 32 + li;
    let q = p + 8 + lids;

    let content = b.content_bytes();
    assert(content == e_author + e_round + e_ts + e_n + e_items + e_m + e_ids);
    assert(s == content + e_bid + e_signer + e_msg);
    assert(s.len() == q + 24);

    assert(s.subrange(0, s.len() as int) =~= s);
    lemma_subrange_split(s, 0, content + e_bid + e_signer, e_msg);
    lemma_subrange_split(s, 0, content + e_bid, e_signer);
    lemma_subrange_split(s, 0, content, e_bid);
    lemma_subrange_split(s, 0, e_author + e_round + e_ts + e_n + e_items + e_m, e_ids);
    lemma_subrange_split(s, 0, e_author + e_round + e_ts + e_n + e_items, e_m);
    lemma_subrange_split(s, 0, e_author + e_round + e_ts + e_n, e_items);
    lemma_subrange_split(s, 0, e_author + e_round + e_ts, e_n);
    lemma_subrange_split(s, 0, e_author + e_round, e_ts);
    lemma_subrange_split(s, 0, e_author, e_round);

    lemma_dec_enc_u64(b.author, s, 0);
    lemma_dec_enc_u64(b.round, s, 8);
    lemma_dec_enc_u64(b.timestamp, s, 16);
    lemma_dec_enc_u64(items.len() as u64, s, 24);
    assert((items.len() as u64) as nat == items.len());
    lemma_parse_enc_items(items, s, 32);
    lemma_dec_enc_u64(ids.len() as u64, s, p);
    assert((ids.len() as u64) as nat == ids.len());
    lemma_parse_enc_ids(ids, s, p + 8);
    lemma_dec_enc_u64(b.batch_id, s, q);
    lemma_dec_enc_u64(b.author_signature.signer, s, q + 8);
    lemma_dec_enc_u64(b.author_signature.message, s, q + 16);
}


/// The canonical encoding of one signature: the signer, then the message.
pub open spec fn spec_enc_sig(sig: Signature) -> Seq<u8> {
    spec_enc_u64(sig.signer) + spec_enc_u64(sig.message)
}

/// The canonical encoding of a list of signatures, in order.
pub open spec fn spec_enc_sigs(sigs: Seq<Signature>) -> Seq<u8>
    decreases sigs.len(),
{
    if sigs.len() == 0 {
        Seq::empty()
    } else {
        spec_enc_sig(sigs[0]) + spec_enc_sigs(sigs.drop_first())
    }
}

/// Appending one signature on the right extends the encoding on the right.
pub proof fn lemma_enc_sigs_snoc(sigs: Seq<Signature>, sig: Signature)
    ensures
        spec_enc_sigs(sigs.push(sig)) == spec_enc_sigs(sigs) + spec_enc_sig(sig),
    decreases sigs.len(),
{
    reveal_with_fuel(spec_enc_sigs, 3);
    if sigs.len() == 0 {
        assert(sigs.push(sig)[0] == sig);
        assert(sigs.push(sig).drop_first() =~= Seq::<Signature>::empty());
        assert(spec_enc_sigs(sigs.push(sig)) =~= spec_enc_sigs(sigs) + spec_enc_sig(sig));
    } else {
        assert(sigs.push(sig)[0] == sigs[0]);
        assert(sigs.push(sig).drop_first() =~= sigs.drop_first().push(sig));
        lemma_enc_sigs_snoc(sigs.drop_first(), sig);
        assert(spec_enc_sigs(sigs.push(sig)) =~= spec_enc_sigs(sigs) + spec_enc_sig(sig));
    }
}

/// Reads `n` signatures in order.
pub open spec fn spec_parse_sigs(s: Seq<u8>, pos: int, n: nat) -> Option<(Seq<Signature>, int)>
    decreases n,
{
    if n == 0 {
        Some((Seq::empty(), pos))
    } else if 0 <= pos && pos + 16 <= s.len() {
        let sig = Signature { signer: spec_dec_u64(s, pos), message: spec_dec_u64(s, pos + 8) };
        match spec_parse_sigs(s, pos + 16, (n - 1) as nat) {
            Option::None => None,
            Option::Some((rest, q)) => Some((seq![sig] + rest, q)),
        }
    } else {
        None
    }
}

/// Parsing one more signature extends a successful parse by it.
pub proof fn lemma_parse_sigs_append(s: Seq<u8>, pos: int, xs: Seq<Signature>, p: int, a: nat)
    requires
        spec_parse_sigs(s, pos, a) == Some((xs, p)),
        0 <= p,
        p + 16 <= s.len(),
    ensures
        spec_parse_sigs(s, pos, (a + 1) as nat) == Some(
            (
                xs.push(Signature { signer: spec_dec_u64(s, p), message: spec_dec_u64(s, p + 8) }),
                p + 16,
            ),
        ),
    decreases a,
{
    reveal_with_fuel(spec_parse_sigs, 3);
    let sig = Signature { signer: spec_dec_u64(s, p), message: spec_dec_u64(s, p + 8) };
    if a == 0 {
        assert(xs == Seq::<Signature>::empty() && p == pos);
        assert(spec_parse_sigs(s, p + 16, 0) == Some((Seq::<Signature>::empty(), p + 16)));
        assert(seq![sig] + Seq::<Signature>::empty() =~= xs.push(sig));
    } else {
        let sig0 = Signature { signer: spec_dec_u64(s, pos), message: spec_dec_u64(s, pos + 8) };
        let (rest, pr) = spec_parse_sigs(s, pos + 16, (a - 1) as nat).unwrap();
        assert(xs == seq![sig0] + rest && pr == p);
        lemma_parse_sigs_append(s, pos + 16, rest, p, (a - 1) as nat);
        assert(seq![sig0] + rest.push(sig) =~= xs.push(sig));
    }
}

/// A signature parse that has gone well so far fails overall once the
/// stream runs out.
pub proof fn lemma_parse_sigs_fail(s: Seq<u8>, pos: int, xs: Seq<Signature>, p: int, a: nat, n: nat)
    requires
        spec_parse_sigs(s, pos, a) == Some((xs, p)),
        !(0 <= p && p + 16 <= s.len()),
        a < n,
    ensures
        spec_parse_sigs(s, pos, n) is None,
    decreases a,
{
    if a == 0 {
        assert(p == pos);
    } else {
        let (rest, pr) = spec_parse_sigs(s, pos + 16, (a - 1) as nat).unwrap();
        lemma_parse_sigs_fail(s, pos + 16, rest, p, (a - 1) as nat, (n - 1) as nat);
    }
}

/// Parsing inverts encoding for a list of signatures.
pub proof fn lemma_parse_enc_sigs(sigs: Seq<Signature>, s: Seq<u8>, pos: int)
    requires
        0 <= pos,
        pos + spec_enc_sigs(sigs).len() <= s.len(),
        s.subrange(pos, pos + spec_enc_sigs(sigs).len() as int) == spec_enc_sigs(sigs),
    ensures
        spec_parse_sigs(s, pos, sigs.len()) == Some((sigs, pos + spec_enc_sigs(sigs).len())),
    decreases sigs.len(),
{
    if sigs.len() == 0 {
        assert(sigs =~= Seq::<Signature>::empty());
    } else {
        let rest = sigs.drop_first();
        assert(spec_enc_sigs(sigs) == spec_enc_sig(sigs[0]) + spec_enc_sigs(rest));
        lemma_subrange_split(s, pos, spec_enc_sig(sigs[0]), spec_enc_sigs(rest));
        assert(spec_enc_sig(sigs[0]) == spec_enc_u64(sigs[0].signer) + spec_enc_u64(
            sigs[0].message,
        ));
        lemma_subrange_split(s, pos, spec_enc_u64(sigs[0].signer), spec_enc_u64(sigs[0].message));
        lemma_dec_enc_u64(sigs[0].signer, s, pos);
        lemma_dec_enc_u64(sigs[0].message, s, pos + 8);
        lemma_parse_enc_sigs(rest, s, pos + 16);
        assert(seq![sigs[0]] + rest =~= sigs);
    }
}

/// The canonical wire encoding of a certificate: the batch identifier, the
/// round, the signature count, and the signatures.
pub open spec fn spec_serialize_certificate(c: CertificateView) -> Seq<u8> {
    spec_enc_u64(c.batch_id) + spec_enc_u64(c.round) + spec_enc_u64(c.signatures.len() as u64)
        + spec_enc_sigs(c.signatures)
}

/// Reads a certificate from its canonical wire encoding.
pub open spec fn spec_parse_certificate(s: Seq<u8>) -> Option<CertificateView> {
    if s.len() >= 24 {
        let batch_id = spec_dec_u64(s, 0);
        let round = spec_dec_u64(s, 8);
        let n = spec_dec_u64(s, 16);
        match spec_parse_sigs(s, 24, n as nat) {
            Option::None => None,
            Option::Some((sigs, q)) => if q == s.len() {
                Some(CertificateView { batch_id, round, signatures: sigs })
            } else {
                None
            },
        }
    } else {
        None
    }
}

/// Serializes a certificate into its canonical wire encoding.
pub fn serialize_certificate(c: &Certificate) -> (r: Vec<u8>)
    ensures
        r@ == spec_serialize_certificate(c@),
{
    let mut buf: Vec<u8> = Vec::new();
    push_u64(&mut buf, c.batch_id);
    push_u64(&mut buf, c.round);
    push_u64(&mut buf, c.signatures.len() as u64);
    let ghost head = buf@;
    let mut i: usize = 0;
    while i < c.signatures.len()
        invariant
            i <= c.signatures.len(),
            buf@ == head + spec_enc_sigs(c.signatures@.take(i as int)),
        decreases c.signatures.len() - i,
    {
        push_u64(&mut buf, c.signatures[i].signer);
        push_u64(&mut buf, c.signatures[i].message);
        proof {
            assert(c.signatures@.take(i + 1) =~= c.signatures@.take(i as int).push(
                c.signatures@[i as int],
            ));
            lemma_enc_sigs_snoc(c.signatures@.take(i as int), c.signatures@[i as int]);
            assert(buf@ =~= head + spec_enc_sigs(c.signatures@.take(i + 1)));
        }
        i = i + 1;
    }
    proof {
        assert(c.signatures@.take(c.signatures@.len() as int) =~= c.signatures@);
        assert(buf@ =~= spec_serialize_certificate(c@));
    }
    buf
}

/// Deserializes a certificate from its canonical wire encoding. Succeeds
/// exactly on byte streams the wire grammar accepts, and returns exactly
/// the certificate the stream encodes.
#[verifier::loop_isolation(false)]
pub fn deserialize_certificate(bytes: &Vec<u8>) -> (r: Result<Certificate, Error>)
    ensures
        spec_parse_certificate(bytes@) is Some ==> r is Ok && r.unwrap()@ == spec_parse_certificate(
            bytes@,
        ).unwrap(),
        spec_parse_certificate(bytes@) is None ==> r == Result::<Certificate, Error>::Err(
            Error::MalformedCertificate,
        ),
{
    let ghost s = bytes@;
    if bytes.len() < 24 {
        return Err(Error::MalformedCertificate);
    }
    let batch_id = read_u64(bytes, 0);
    let round = read_u64(bytes, 8);
    let n = read_u64(bytes, 16);
    let mut sigs: Vec<Signature> = Vec::new();
    let mut pos: usize = 24;
    let mut i: u64 = 0;
    while i < n
        invariant
            i <= n,
            pos <= bytes@.len(),
            spec_parse_sigs(s, 24, i as nat) == Some((sigs@, pos as int)),
        decreases n - i,
    {
        if bytes.len() - pos < 16 {
            proof {
                lemma_parse_sigs_fail(s, 24, sigs@, pos as int, i as nat, n as nat);
            }
            return Err(Error::MalformedCertificate);
        }
        let signer = read_u64(bytes, pos);
        let message = read_u64(bytes, pos + 8);
        proof {
            lemma_parse_sigs_append(s, 24, sigs@, pos as int, i as nat);
        }
        sigs.push(Signature { signer, message });
        pos = pos + 16;
        i = i + 1;
    }
    if pos != bytes.len() {
        return Err(Error::MalformedCertificate);
    }
    Ok(Certificate { batch_id, round, signatures: sigs })
}

/// Deserializing a serialized certificate gives the certificate back.
/// Holds of every certificate whose signature count fits the wire format's
/// count word, as it does for every certificate held in memory.
pub proof fn lemma_certificate_round_trip(c: CertificateView)
    requires
        c.signatures.len() <= u64::MAX,
    ensures
        spec_parse_certificate(spec_serialize_certificate(c)) == Some(c),
{
    let s = spec_serialize_certificate(c);
    let e_bid = spec_enc_u64(c.batch_id);
    let e_round = spec_enc_u64(c.round);
    let e_n = spec_enc_u64(c.signatures.len() as u64);
    let e_sigs = spec_enc_sigs(c.signatures);
    assert(s == e_bid + e_round + e_n + e_sigs);
    assert(s.subrange(0, s.len() as int) =~= s);
    lemma_subrange_split(s, 0, e_bid + e_round + e_n, e_sigs);
    lemma_subrange_split(s, 0, e_bid + e_round, e_n);
    lemma_subrange_split(s, 0, e_bid, e_round);
    lemma_dec_enc_u64(c.batch_id, s, 0);
    lemma_dec_enc_u64(c.round, s, 8);
    lemma_dec_enc_u64(c.signatures.len() as u64, s, 16);
    assert((c.signatures.len() as u64) as nat == c.signatures.len());
    lemma_parse_enc_sigs(c.signatures, s, 24);
}

} // verus!
