//! The text form of an output with its inscriptions: one line, the output,
//! a dash, and the object ids separated by commas.

use crate::accumulator::digests;
use crate::hash::H256;
use crate::statedb::outpoint::OutPoint;
use crate::statedb::outpoint_inscriptions::{ObjectID, OutpointInscriptions};
use std::str::FromStr;
use vstd::prelude::*;
use vstd::slice::slice_subrange;

verus! {

/// Why a line is not the text of an item.
#[derive(Clone, Copy, Debug, PartialEq, Eq, Structural)]
pub enum LineError {
    /// There is no dash in the line.
    Format,
    /// What stands before the dash is not an output.
    OutPoint,
    /// What stands after the dash is not a list of object ids.
    ObjectID,
}

/// The dash between output and object ids.
pub const DASH: u8 = 45;

/// The comma between object ids.
pub const COMMA: u8 = 44;

/// The colon between transaction id and index.
pub const COLON: u8 = 58;

/// The decimal digits of a natural number, without leading zeros.
pub open spec fn decimal_digits(n: nat) -> Seq<u8>
    decreases n,
{
    if n < 10 {
        seq![(48 + n) as u8]
    } else {
        decimal_digits(n / 10).push((48 + n % 10) as u8)
    }
}

/// The text of an output: the bytes of the transaction id, last byte first,
/// in hexadecimal digits, a colon, and the index in decimal digits.
pub open spec fn outpoint_text(txid: Seq<u8>, vout: u32) -> Seq<u8> {
    hex(txid.reverse()) + seq![COLON] + decimal_digits(vout as nat)
}

/// The output that a text stands for, if it stands for one.
pub uninterp spec fn outpoint_from_text(text: Seq<u8>) -> Option<(Seq<u8>, u32)>;

/// Writes an output with the `Display` of `bitcoin::OutPoint`. The contract
/// claims that the text is the transaction id as `bitcoin::Txid` displays it
/// (its bytes in reverse, two lower-case hexadecimal digits each), a colon
/// and the index in decimal digits, and that `bitcoin::OutPoint::from_str`
/// reads the output back from it.
#[verifier::external_body]
fn format_outpoint(outpoint: &OutPoint) -> (text: Vec<u8>)
    ensures
        text@ == outpoint_text(outpoint.txid@, outpoint.vout),
        outpoint_from_text(text@) == Some((outpoint.txid@, outpoint.vout)),
{
    let txid = <bitcoin::Txid as bitcoin::hashes::Hash>::from_byte_array(outpoint.txid);
    bitcoin::OutPoint { txid, vout: outpoint.vout }.to_string().into_bytes()
}

/// Reads an output with `bitcoin::OutPoint::from_str`. The contract claims
/// that the result depends on the text alone; bytes that are not text stand
/// for no output.
#[verifier::external_body]
fn parse_outpoint(text: &[u8]) -> (r: Option<OutPoint>)
    ensures
        match outpoint_from_text(text@) {
            Some((txid, vout)) => r matches Some(o) && o.txid@ == txid && o.vout == vout,
            None => r is None,
        },
{
    let parsed = std::str::from_utf8(text).ok().and_then(|s| bitcoin::OutPoint::from_str(s).ok());
    parsed.map(|o| OutPoint { txid: bitcoin::hashes::Hash::to_byte_array(o.txid), vout: o.vout })
}

/// The hexadecimal digit of a number below 16, in lower case.
pub open spec fn hex_digit(n: u8) -> u8 {
    if n < 10 {
        (48 + n) as u8
    } else {
        (87 + n) as u8
    }
}

/// The number that a hexadecimal digit stands for, in either case.
pub open spec fn hex_value(c: u8) -> Option<u8> {
    if 48 <= c <= 57 {
        Some((c - 48) as u8)
    } else if 97 <= c <= 102 {
        Some((c - 87) as u8)
    } else if 65 <= c <= 70 {
        Some((c - 55) as u8)
    } else {
        None
    }
}

/// The bytes in hexadecimal digits, two for each byte.
pub open spec fn hex(bytes: Seq<u8>) -> Seq<u8> {
    Seq::new(
        2 * bytes.len(),
        |i: int|
            if i % 2 == 0 {
                hex_digit(bytes[i / 2] / 16)
            } else {
                hex_digit(bytes[i / 2] % 16)
            },
    )
}

/// The text of an object id: `0x` and its 32 bytes in hexadecimal digits.
pub open spec fn object_id_text(id: Seq<u8>) -> Seq<u8> {
    seq![48u8, 120u8] + hex(id)
}

/// The object id that a text stands for: the text is `0x` and 64
/// hexadecimal digits.
pub open spec fn object_id_from_text(text: Seq<u8>) -> Option<Seq<u8>> {
    if text.len() == 66 && text[0] == 48 && text[1] == 120 && forall|i: int|
        2 <= i < 66 ==> hex_value(#[trigger] text[i]) is Some {
        Some(
            Seq::new(
                32,
                |k: int| (hex_value(text[2 + 2 * k])->0 * 16 + hex_value(text[3 + 2 * k])->0) as u8,
            ),
        )
    } else {
        None
    }
}

/// The texts of object ids, of which there is at least one, with commas
/// between them.
pub open spec fn ids_text(ids: Seq<Seq<u8>>) -> Seq<u8>
    decreases ids.len(),
{
    if ids.len() <= 1 {
        if ids.len() == 1 {
            object_id_text(ids[0])
        } else {
            Seq::empty()
        }
    } else {
        object_id_text(ids[0]) + seq![COMMA] + ids_text(ids.skip(1))
    }
}

/// The line of an item.
pub open spec fn line_text(txid: Seq<u8>, vout: u32, ids: Seq<Seq<u8>>) -> Seq<u8> {
    outpoint_text(txid, vout) + seq![DASH] + ids_text(ids)
}

/// The first place from `from` on at which `b` stands, or the length where
/// it stands nowhere.
pub open spec fn first_index_from(s: Seq<u8>, b: u8, from: int) -> int
    decreases s.len() - from,
{
    if from < 0 || from >= s.len() {
        s.len() as int
    } else if s[from] == b {
        from
    } else {
        first_index_from(s, b, from + 1)
    }
}

/// The object ids that stand in `s` from `from` on, with commas between
/// them.
pub open spec fn parse_ids_from(s: Seq<u8>, from: int) -> Option<Seq<Seq<u8>>>
    decreases s.len() - from,
{
    if from < 0 || from > s.len() {
        None
    } else {
        let comma = first_index_from(s, COMMA, from);
        match object_id_from_text(s.subrange(from, comma)) {
            None => None,
            Some(id) => if comma >= s.len() {
                Some(seq![id])
            } else if comma < from {
                None
            } else {
                match parse_ids_from(s, comma + 1) {
                    Some(rest) => Some(seq![id] + rest),
                    None => None,
                }
            },
        }
    }
}

/// The item that a line stands for: what stands before the first dash is
/// the output, what stands after it are the object ids.
pub open spec fn parse_line(s: Seq<u8>) -> Result<((Seq<u8>, u32), Seq<Seq<u8>>), LineError> {
    let dash = first_index_from(s, DASH, 0);
    if dash >= s.len() {
        Err(LineError::Format)
    } else {
        match outpoint_from_text(s.subrange(0, dash)) {
            None => Err(LineError::OutPoint),
            Some(outpoint) => match parse_ids_from(s, dash + 1) {
                None => Err(LineError::ObjectID),
                Some(ids) => Ok((outpoint, ids)),
            },
        }
    }
}

/// Where a byte stands at `at` and nowhere between `from` and `at`, `at` is
/// its first place; where it stands nowhere from `from` on, that is the
/// length.
pub proof fn lemma_first_index_is(s: Seq<u8>, b: u8, from: int, at: int)
    requires
        0 <= from <= at <= s.len(),
        forall|i: int| from <= i < at ==> s[i] != b,
        at < s.len() ==> s[at] == b,
    ensures
        first_index_from(s, b, from) == at,
    decreases at - from,
{
    if from < at {
        lemma_first_index_is(s, b, from + 1, at);
    }
}

/// A hexadecimal digit stands for the number it was written for.
pub proof fn lemma_hex_digit(n: u8)
    requires
        n < 16,
    ensures
        hex_value(hex_digit(n)) == Some(n),
        hex_digit(n) != COMMA,
        hex_digit(n) != DASH,
{
}

/// The decimal digits of a number are digits.
pub proof fn lemma_decimal_digits(n: nat)
    ensures
        decimal_digits(n).len() > 0,
        forall|i: int| 0 <= i < decimal_digits(n).len() ==> 48 <= #[trigger] decimal_digits(n)[i] <= 57,
    decreases n,
{
    if n >= 10 {
        lemma_decimal_digits(n / 10);
    }
}

/// The text of an output holds no dash.
pub proof fn lemma_outpoint_text_no_dash(txid: Seq<u8>, vout: u32)
    ensures
        forall|i: int|
            0 <= i < outpoint_text(txid, vout).len() ==> #[trigger] outpoint_text(txid, vout)[i]
                != DASH,
{
    let text = outpoint_text(txid, vout);
    let id = hex(txid.reverse());
    lemma_decimal_digits(vout as nat);
    assert forall|i: int| 0 <= i < text.len() implies #[trigger] text[i] != DASH by {
        if i < id.len() {
            assert(text[i] == id[i]);
            lemma_hex_digit(txid.reverse()[i / 2] / 16);
            lemma_hex_digit(txid.reverse()[i / 2] % 16);
        } else if i == id.len() {
            assert(text[i] == COLON);
        } else {
            assert(text[i] == decimal_digits(vout as nat)[i - id.len() - 1]);
        }
    }
}

/// The text of an object id holds no comma, and stands for the object id.
pub proof fn lemma_object_id_text(id: Seq<u8>)
    requires
        id.len() == 32,
    ensures
        object_id_text(id).len() == 66,
        forall|i: int| 0 <= i < 66 ==> object_id_text(id)[i] != COMMA,
        object_id_from_text(object_id_text(id)) == Some(id),
{
    let text = object_id_text(id);
    assert forall|i: int| 2 <= i < 66 implies hex_value(#[trigger] text[i]) is Some && text[i]
        != COMMA by {
        let j = i - 2;
        assert(text[i] == hex(id)[j]);
        lemma_hex_digit(id[j / 2] / 16);
        lemma_hex_digit(id[j / 2] % 16);
    }
    let back = object_id_from_text(text)->0;
    assert forall|k: int| 0 <= k < 32 implies back[k] == id[k] by {
        assert(text[2 + 2 * k] == hex(id)[2 * k]);
        assert(text[3 + 2 * k] == hex(id)[2 * k + 1]);
        lemma_hex_digit(id[k] / 16);
        lemma_hex_digit(id[k] % 16);
        assert((2 * k) / 2 == k && (2 * k + 1) / 2 == k);
    }
    assert(back =~= id);
}

/// Object ids that were written after a prefix are read back from its end.
pub proof fn lemma_parse_ids(prefix: Seq<u8>, ids: Seq<Seq<u8>>)
    requires
        ids.len() > 0,
        forall|i: int| 0 <= i < ids.len() ==> (#[trigger] ids[i]).len() == 32,
    ensures
        parse_ids_from(prefix + ids_text(ids), prefix.len() as int) == Some(ids),
    decreases ids.len(),
{
    let s = prefix + ids_text(ids);
    let from = prefix.len() as int;
    let first = object_id_text(ids[0]);
    lemma_object_id_text(ids[0]);
    assert forall|i: int| from <= i < from + 66 implies s[i] != COMMA by {
        assert(s[i] == first[i - from]);
    }
    if ids.len() == 1 {
        assert(s.len() == from + 66);
        lemma_first_index_is(s, COMMA, from, from + 66);
        assert(s.subrange(from, from + 66) =~= first);
        assert(seq![ids[0]] =~= ids);
    } else {
        let rest = ids.skip(1);
        assert(s[from + 66] == COMMA);
        lemma_first_index_is(s, COMMA, from, from + 66);
        assert(s.subrange(from, from + 66) =~= first);
        let longer = prefix + first + seq![COMMA];
        assert(s =~= longer + ids_text(rest));
        assert forall|i: int| 0 <= i < rest.len() implies (#[trigger] rest[i]).len() == 32 by {
            assert(rest[i] == ids[i + 1]);
        }
        lemma_parse_ids(longer, rest);
        assert(seq![ids[0]] + rest =~= ids);
    }
}

/// A line that was written for an item with at least one object id is read
/// back as that item, given that the text of the output holds no dash and is
/// read back as the output.
pub proof fn lemma_parse_line(outpoint: Seq<u8>, txid: Seq<u8>, vout: u32, ids: Seq<Seq<u8>>)
    requires
        forall|i: int| 0 <= i < outpoint.len() ==> outpoint[i] != DASH,
        outpoint_from_text(outpoint) == Some((txid, vout)),
        ids.len() > 0,
        forall|i: int| 0 <= i < ids.len() ==> (#[trigger] ids[i]).len() == 32,
    ensures
        parse_line(outpoint + seq![DASH] + ids_text(ids)) == Ok::<
            ((Seq<u8>, u32), Seq<Seq<u8>>),
            LineError,
        >(((txid, vout), ids)),
{
    let s = outpoint + seq![DASH] + ids_text(ids);
    let dash = outpoint.len() as int;
    assert(s[dash] == DASH);
    assert forall|i: int| 0 <= i < dash implies s[i] != DASH by {
        assert(s[i] == outpoint[i]);
    }
    lemma_first_index_is(s, DASH, 0, dash);
    assert(s.subrange(0, dash) =~= outpoint);
    lemma_parse_ids(outpoint + seq![DASH], ids);
}

/// The lower-case hexadecimal digit of a number below 16.
fn hex_digit_of(n: u8) -> (c: u8)
    requires
        n < 16,
    ensures
        c == hex_digit(n),
{
    if n < 10 {
        48 + n
    } else {
        87 + n
    }
}

/// The number that a hexadecimal digit stands for.
fn hex_value_of(c: u8) -> (r: Option<u8>)
    ensures
        r == hex_value(c),
{
    if 48 <= c && c <= 57 {
        Some(c - 48)
    } else if 97 <= c && c <= 102 {
        Some(c - 87)
    } else if 65 <= c && c <= 70 {
        Some(c - 55)
    } else {
        None
    }
}

/// Appends the text of an object id.
pub fn write_object_id(out: &mut Vec<u8>, id: &ObjectID)
    ensures
        final(out)@ == old(out)@ + object_id_text(id@),
{
    let ghost start = out@;
    out.push(48u8);
    out.push(120u8);
    let mut i: usize = 0;
    while i < 32
        invariant
            i <= 32,
            id@.len() == 32,
            out@ == start + seq![48u8, 120u8] + hex(id@).take(2 * i),
        decreases 32 - i,
    {
        let ghost before = out@;
        let byte = id.0[i];
        out.push(hex_digit_of(byte / 16));
        out.push(hex_digit_of(byte % 16));
        assert(out@ =~= start + seq![48u8, 120u8] + hex(id@).take(2 * (i + 1))) by {
            assert((2 * i) / 2 == i && (2 * i + 1) / 2 == i);
            assert(hex(id@)[2 * i] == hex_digit(byte / 16));
            assert(hex(id@)[2 * i + 1] == hex_digit(byte % 16));
        }
        i += 1;
    }
    assert(hex(id@).take(64) =~= hex(id@));
    assert(out@ =~= start + object_id_text(id@));
}

/// Reads an object id from its text.
pub fn read_object_id(text: &[u8]) -> (r: Option<ObjectID>)
    ensures
        match object_id_from_text(text@) {
            Some(id) => r matches Some(x) && x@ == id,
            None => r is None,
        },
{
    if text.len() != 66 {
        return None;
    }
    if text[0] != 48 || text[1] != 120 {
        return None;
    }
    let mut bytes: [u8; 32] = [0u8; 32];
    let mut k: usize = 0;
    while k < 32
        invariant
            k <= 32,
            text@.len() == 66,
            forall|i: int| 2 <= i < 2 + 2 * k ==> hex_value(#[trigger] text@[i]) is Some,
            forall|j: int|
                0 <= j < k ==> bytes@[j] == (hex_value(text@[2 + 2 * j])->0 * 16 + hex_value(
                    text@[3 + 2 * j],
                )->0) as u8,
        decreases 32 - k,
    {
        let high = match hex_value_of(text[2 + 2 * k]) {
            Some(high) => high,
            None => { return None; },
        };
        let low = match hex_value_of(text[3 + 2 * k]) {
            Some(low) => low,
            None => { return None; },
        };
        bytes[k] = high * 16 + low;
        k += 1;
    }
    let id = H256(bytes);
    assert(id@ =~= object_id_from_text(text@)->0);
    Some(id)
}

/// The first place from `from` on at which `b` stands, or the length.
fn find_from(s: &[u8], b: u8, from: usize) -> (at: usize)
    requires
        from <= s@.len(),
    ensures
        at == first_index_from(s@, b, from as int),
        from <= at <= s@.len(),
{
    let mut i: usize = from;
    while i < s.len() && s[i] != b
        invariant
            from <= i <= s@.len(),
            first_index_from(s@, b, from as int) == first_index_from(s@, b, i as int),
        decreases s@.len() - i,
    {
        i += 1;
    }
    i
}

impl OutpointInscriptions {
    /// The line of the item. An item with at least one inscription is read
    /// back from its line.
    pub fn to_line(&self) -> (line: Vec<u8>)
        ensures
            line@ == line_text(self.outpoint.txid@, self.outpoint.vout, digests(self.inscriptions@)),
            self.inscriptions@.len() > 0 ==> parse_line(line@) == Ok::<
                ((Seq<u8>, u32), Seq<Seq<u8>>),
                LineError,
            >(((self.outpoint.txid@, self.outpoint.vout), digests(self.inscriptions@))),
    {
        let ghost ids = digests(self.inscriptions@);
        let mut line = format_outpoint(&self.outpoint);
        let ghost outpoint = line@;
        line.push(DASH);
        let ghost head = line@;
        let n = self.inscriptions.len();
        let mut i: usize = 0;
        assert(ids.skip(0) =~= ids);
        while i < n
            invariant
                i <= n,
                n == self.inscriptions@.len(),
                ids == digests(self.inscriptions@),
                i == 0 ==> line@ == head,
                i < n ==> line@ + (if i == 0 {
                    Seq::<u8>::empty()
                } else {
                    seq![COMMA]
                }) + ids_text(ids.skip(i as int)) == head + ids_text(ids),
                i == n ==> line@ == head + ids_text(ids),
            decreases n - i,
        {
            let ghost before = line@;
            let ghost rest = ids.skip(i as int);
            if i > 0 {
                line.push(COMMA);
            }
            write_object_id(&mut line, &self.inscriptions[i]);
            proof {
                assert(rest[0] == self.inscriptions@[i as int]@);
                assert(rest.skip(1) =~= ids.skip(i + 1));
                if i + 1 < n {
                    assert(line@ + seq![COMMA] + ids_text(ids.skip(i + 1)) =~= before + (if i
                        == 0 {
                        Seq::<u8>::empty()
                    } else {
                        seq![COMMA]
                    }) + ids_text(rest));
                } else {
                    assert(rest.len() == 1);
                    assert(line@ =~= before + (if i == 0 {
                        Seq::<u8>::empty()
                    } else {
                        seq![COMMA]
                    }) + ids_text(rest));
                }
            }
            i += 1;
        }
        proof {
            if n == 0 {
                assert(line@ =~= head + ids_text(ids));
            }
            assert(head + ids_text(ids) =~= outpoint + seq![DASH] + ids_text(ids));
            if n > 0 {
                lemma_outpoint_text_no_dash(self.outpoint.txid@, self.outpoint.vout);
                lemma_parse_line(outpoint, self.outpoint.txid@, self.outpoint.vout, ids);
            }
        }
        line
    }

    /// Reads an item from its line.
    pub fn from_line(line: &[u8]) -> (r: Result<OutpointInscriptions, LineError>)
        ensures
            match parse_line(line@) {
                Ok((outpoint, ids)) => r matches Ok(item) && item.outpoint.txid@ == outpoint.0
                    && item.outpoint.vout == outpoint.1 && digests(item.inscriptions@) == ids,
                Err(e) => r matches Err(x) && x == e,
            },
    {
        let dash = find_from(line, DASH, 0);
        if dash >= line.len() {
            return Err(LineError::Format);
        }
        let outpoint = match parse_outpoint(slice_subrange(line, 0, dash)) {
            Some(outpoint) => outpoint,
            None => { return Err(LineError::OutPoint); },
        };
        let mut inscriptions: Vec<ObjectID> = Vec::new();
        let mut from: usize = dash + 1;
        loop
            invariant
                dash + 1 <= from <= line@.len(),
                dash == first_index_from(line@, DASH, 0),
                outpoint_from_text(line@.subrange(0, dash as int)) == Some(
                    (outpoint.txid@, outpoint.vout),
                ),
                match parse_ids_from(line@, from as int) {
                    Some(rest) => parse_ids_from(line@, dash + 1) == Some(
                        digests(inscriptions@) + rest,
                    ),
                    None => parse_ids_from(line@, dash + 1) is None,
                },
            decreases line@.len() - from,
        {
            let ghost before = digests(inscriptions@);
            let comma = find_from(line, COMMA, from);
            let id = match read_object_id(slice_subrange(line, from, comma)) {
                Some(id) => id,
                None => { return Err(LineError::ObjectID); },
            };
            inscriptions.push(id);
            assert(digests(inscriptions@) =~= before + seq![id@]);
            if comma >= line.len() {
                assert(before + seq![id@] =~= digests(inscriptions@));
                return Ok(OutpointInscriptions { outpoint, inscriptions });
            }
            proof {
                let rest = parse_ids_from(line@, comma + 1);
                if rest is Some {
                    assert(before + (seq![id@] + rest->0) =~= digests(inscriptions@) + rest->0);
                }
            }
            from = comma + 1;
        }
    }
}

} // verus!
