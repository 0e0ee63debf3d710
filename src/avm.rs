//! The verifier contract for the Aion virtual machine, in Java: each hex
//! scalar of the key is placed on its own, G2 coordinates in the order the
//! target library expects, and every scalar is then written as its quoted
//! digits.
use crate::key::{texts, KeyDocument, KeyError, KeyModel, HEADER_LINES};
use crate::scalar::{
    find_scalars, lemma_quoted_scalar, lemma_quoted_skip, lemma_quoted_split,
    lemma_quoted_split_after, lemma_scalar_tokens_are_scalars, quote_scalars, quoted_scalars,
    scalar_at, scalar_tokens, tokens_are_scalars, tokens_well_formed,
};
use crate::solidity::IC_SEPARATOR;
use crate::text::{
    decimal, interleave, interleave_offset, join, lemma_decimal_digits,
    lemma_interleave_places_values, lemma_join_step, push_decimal,
};
use vstd::prelude::*;
use vstd::string::*;

verus! {

pub const AVM_HEAD: &'static str = r#"// This file is MIT Licensed
package org.oan.tetryon;

import avm.Blockchain;
import org.aion.avm.tooling.abi.Callable;

import java.math.BigInteger;
import java.util.Arrays;

@SuppressWarnings({"WeakerAccess", "unused"})
public class Verifier {

    protected static class VerifyingKey {

        public final G2Point a;
        public final G1Point b;
        public final G2Point c;
        public final G2Point gamma;
        public final G1Point gamma_beta_1;
        public final G2Point gamma_beta_2;
        public final G2Point z;
        public final G1Point[] ic;

        public VerifyingKey(G2Point a, G1Point b, G2Point c,
                            G2Point gamma, G1Point gamma_beta_1, G2Point gamma_beta_2,
                            G2Point z, G1Point[] ic) {
            this.a = a;
            this.b = b;
            this.c = c;
            this.gamma = gamma;
            this.gamma_beta_1 = gamma_beta_1;
            this.gamma_beta_2 = gamma_beta_2;
            this.z = z;
            this.ic = ic;
        }
    }

    public static class Proof {
        public final G1Point a;
        public final G1Point a_p;
        public final G2Point b;
        public final G1Point b_p;
        public final G1Point c;
        public final G1Point c_p;
        public final G1Point k;
        public final G1Point h;

        public Proof(G1Point a, G1Point a_p,
                     G2Point b, G1Point b_p,
                     G1Point c, G1Point c_p,
                     G1Point k, G1Point h) {
            this.a = a;
            this.a_p = a_p;
            this.b = b;
            this.b_p = b_p;
            this.c = c;
            this.c_p = c_p;
            this.k = k;
            this.h = h;
        }

        // serialized as a | b | c
        public byte[] serialize() {
            byte[] s = new byte[Fp.ELEMENT_SIZE*18];

            byte[] aByte = G1.serialize(this.a);
            byte[] apByte = G1.serialize(this.a_p);
            byte[] bByte = G2.serialize(this.b);
            byte[] bpByte = G1.serialize(this.b_p);
            byte[] cByte = G1.serialize(this.c);
            byte[] cpByte = G1.serialize(this.c_p);
            byte[] kByte = G1.serialize(this.k);
            byte[] hByte = G1.serialize(this.h);

            System.arraycopy(aByte, 0, s, 0, aByte.length);
            System.arraycopy(apByte, 0, s, 2*Fp.ELEMENT_SIZE, apByte.length);
            System.arraycopy(bByte, 0, s, 4*Fp.ELEMENT_SIZE, bByte.length);
            System.arraycopy(bpByte, 0, s, 8*Fp.ELEMENT_SIZE, bpByte.length);
            System.arraycopy(cByte, 0, s, 10*Fp.ELEMENT_SIZE, cByte.length);
            System.arraycopy(cpByte, 0, s, 12*Fp.ELEMENT_SIZE, cpByte.length);
            System.arraycopy(kByte, 0, s, 14*Fp.ELEMENT_SIZE, kByte.length);
            System.arraycopy(hByte, 0, s, 16*Fp.ELEMENT_SIZE, hByte.length);

            return s;
        }

        public static Proof deserialize(byte[] data) {
            Blockchain.require(data.length == 18*Fp.ELEMENT_SIZE);

            G1Point a = G1.deserialize(Arrays.copyOfRange(data, 0, 2*Fp.ELEMENT_SIZE));
            G1Point a_p = G1.deserialize(Arrays.copyOfRange(data, 2*Fp.ELEMENT_SIZE, 4*Fp.ELEMENT_SIZE));
            G2Point b = G2.deserialize(Arrays.copyOfRange(data, 4*Fp.ELEMENT_SIZE, 8*Fp.ELEMENT_SIZE));
            G1Point b_p = G1.deserialize(Arrays.copyOfRange(data, 8*Fp.ELEMENT_SIZE, 10*Fp.ELEMENT_SIZE));
            G1Point c = G1.deserialize(Arrays.copyOfRange(data, 10*Fp.ELEMENT_SIZE, 12*Fp.ELEMENT_SIZE));
            G1Point c_p = G1.deserialize(Arrays.copyOfRange(data, 12*Fp.ELEMENT_SIZE, 14*Fp.ELEMENT_SIZE));
            G1Point k = G1.deserialize(Arrays.copyOfRange(data, 14*Fp.ELEMENT_SIZE, 16*Fp.ELEMENT_SIZE));
            G1Point h = G1.deserialize(Arrays.copyOfRange(data, 16*Fp.ELEMENT_SIZE, 18*Fp.ELEMENT_SIZE));

            return new Proof(a, a_p, b, b_p, c, c_p, k, h);
        }
    }

    protected static VerifyingKey verifyingKey() {
        G2Point a = new G2Point("#;

pub const AVM_B_OPEN: &'static str = r#");

        G1Point b = new G1Point("#;

pub const AVM_C_OPEN: &'static str = r#");

        G2Point c = new G2Point("#;

pub const AVM_GAMMA_OPEN: &'static str = r#");

        G2Point gamma = new G2Point("#;

pub const AVM_GAMMA_BETA_1_OPEN: &'static str = r#");

        G1Point gamma_beta_1 = new G1Point("#;

pub const AVM_GAMMA_BETA_2_OPEN: &'static str = r#");

        G2Point gamma_beta_2 = new G2Point("#;

pub const AVM_Z_OPEN: &'static str = r#");

        G2Point z = new G2Point("#;

pub const AVM_COORD_SEPARATOR: &'static str = r#",
                "#;

pub const AVM_IC_LENGTH_OPEN: &'static str = r#");

        G1Point[] ic = new G1Point["#;

pub const AVM_IC_POINTS_OPEN: &'static str = r#"];
        "#;

pub const AVM_TAIL: &'static str = r#"

        return new VerifyingKey(a, b, c, gamma, gamma_beta_1, gamma_beta_2, z, ic);
    }

    static final BigInteger snarkScalarField = new BigInteger("21888242871839275222246405745257275088548364400416034343698204186575808495617");

    public static boolean verify(BigInteger[] input, Proof proof) throws Exception {
        VerifyingKey vk = verifyingKey();
        Blockchain.require(input.length + 1 == vk.ic.length);
        G1Point X = new G1Point(Fp.zero(), Fp.zero());
        for (int i = 0; i < input.length; i++) {
            Blockchain.require(input[i].compareTo(snarkScalarField) < 0);
            G1Point tmp = G1.mul(vk.ic[i + 1], input[i]);
            if (i == 0)
                X = tmp;
            else
                X = G1.add(X, tmp);
        }
        X = G1.add(X, vk.ic[0]);

        if (!Pairing.pairingProd2(proof.a, vk.a, G1.negate(proof.a_p), G2.G2_P)) {
            return false;
        }

        if (!Pairing.pairingProd2(vk.b, proof.b, G1.negate(proof.b_p), G2.G2_P)) {
            return false;
        }

        if (!Pairing.pairingProd2(proof.c, vk.c, G1.negate(proof.c_p), G2.G2_P)) {
            return false;
        }

        if (!Pairing.pairingProd3(proof.k, vk.gamma,
                G1.negate(G1.add(X, G1.add(proof.a, proof.c))), vk.gamma_beta_2,
                G1.negate(vk.gamma_beta_1), proof.b)) {
            return false;
        }

        return Pairing.pairingProd3(G1.add(X, proof.a), proof.b,
                G1.negate(proof.h), vk.z,
                G1.negate(proof.c), G2.G2_P);
    }

    @Callable
    public static boolean verify(BigInteger[] input, byte[] proof) {
        Blockchain.println("verify() called");

        try {
            if (verify(input, Proof.deserialize(proof))) {
                Blockchain.log("VerifySnark".getBytes(), BigInteger.ONE.toByteArray());
                return true;
            }
        } catch (Exception e) {
            Blockchain.println("verify() failed with exception: " + e.getMessage());
        }

        Blockchain.log("VerifySnark".getBytes(), BigInteger.ZERO.toByteArray());
        return false;
    }
}
"#;

pub const AVM_IC_ENTRY_OPEN: &'static str = "ic[";

pub const AVM_IC_ENTRY_MID: &'static str = "] = new G1Point(";

pub const AVM_IC_COORD_SEPARATOR: &'static str = ", ";

pub const AVM_IC_ENTRY_CLOSE: &'static str = ");";

/// The fixed texts that precede each of the seven header points.
pub open spec fn avm_header_pieces() -> Seq<Seq<char>> {
    seq![
        AVM_HEAD@,
        AVM_B_OPEN@,
        AVM_C_OPEN@,
        AVM_GAMMA_OPEN@,
        AVM_GAMMA_BETA_1_OPEN@,
        AVM_GAMMA_BETA_2_OPEN@,
        AVM_Z_OPEN@,
    ]
}

/// How many scalars header field `k` holds: 2 for the G1 points b and
/// gamma_beta_1, 4 for the G2 points.
pub open spec fn field_width(k: int) -> nat {
    if k == 1 || k == 4 {
        2
    } else {
        4
    }
}

/// The scalars of a point in the target's order: a G2 point's two coordinate
/// pairs each have their components swapped; a G1 point keeps its order.
pub open spec fn arranged(t: Seq<Seq<char>>) -> Seq<Seq<char>> {
    if t.len() == 4 {
        seq![t[1], t[0], t[3], t[2]]
    } else {
        t
    }
}

/// The text placed for a header point: its arranged scalars, one per line.
pub open spec fn avm_point_text(value: Seq<char>) -> Seq<char> {
    join(arranged(scalar_tokens(value)), AVM_COORD_SEPARATOR@)
}

pub open spec fn avm_header_texts(header: Seq<Seq<char>>) -> Seq<Seq<char>> {
    Seq::new(header.len(), |k: int| avm_point_text(header[k]))
}

/// `value` consists of hex scalars alone, `width` of them, separated by
/// white space, commas and brackets.
pub open spec fn value_holds(value: Seq<char>, width: nat) -> bool {
    tokens_are_scalars(value) && scalar_tokens(value).len() == width
}

/// Every header value holds as many scalars as its point has coordinates,
/// and every commitment point value holds two; no value holds anything else.
pub open spec fn avm_scalars_ok(key: KeyModel) -> bool {
    (forall|k: int|
        0 <= k < key.header.len() ==> #[trigger] value_holds(key.header[k], field_width(k))) && (forall|i: int|
        0 <= i < key.ic.len() ==> #[trigger] value_holds(key.ic[i], 2))
}

/// The Java statement that stores commitment point `i` with value `v`.
pub open spec fn avm_ic_entry(i: nat, v: Seq<char>) -> Seq<char> {
    let t = scalar_tokens(v);
    AVM_IC_ENTRY_OPEN@ + decimal(i) + AVM_IC_ENTRY_MID@ + t[0] + AVM_IC_COORD_SEPARATOR@ + t[1]
        + AVM_IC_ENTRY_CLOSE@
}

/// One entry per commitment point, in index order.
pub open spec fn avm_ic_entries(ic: Seq<Seq<char>>) -> Seq<Seq<char>> {
    Seq::new(ic.len(), |i: int| avm_ic_entry(i as nat, ic[i]))
}

/// The commitment point statements, one per line.
pub open spec fn avm_ic_body(ic: Seq<Seq<char>>) -> Seq<char> {
    join(avm_ic_entries(ic), IC_SEPARATOR@)
}

/// The contract text with every scalar in place, before scalars are quoted.
pub open spec fn avm_contract(key: KeyModel) -> Seq<char> {
    interleave(avm_header_pieces(), avm_header_texts(key.header), HEADER_LINES as nat)
        + AVM_IC_LENGTH_OPEN@ + decimal(key.ic.len()) + AVM_IC_POINTS_OPEN@ + avm_ic_body(key.ic)
        + AVM_TAIL@
}

fn avm_header_piece(k: usize) -> (r: &'static str)
    requires
        k < HEADER_LINES,
    ensures
        r@ == avm_header_pieces()[k as int],
{
    if k == 0 {
        AVM_HEAD
    } else if k == 1 {
        AVM_B_OPEN
    } else if k == 2 {
        AVM_C_OPEN
    } else if k == 3 {
        AVM_GAMMA_OPEN
    } else if k == 4 {
        AVM_GAMMA_BETA_1_OPEN
    } else if k == 5 {
        AVM_GAMMA_BETA_2_OPEN
    } else {
        AVM_Z_OPEN
    }
}

/// The `width` hex scalars of `value`, or `None` when it holds another
/// number of them or anything but scalars and separators.
fn value_scalars(value: &str, width: usize) -> (r: Option<Vec<String>>)
    ensures
        r matches Some(t) ==> value_holds(value@, width as nat) && texts(t@) == scalar_tokens(
            value@,
        ),
        r is None ==> !value_holds(value@, width as nat),
{
    if !tokens_well_formed(value) {
        return None;
    }
    let tokens = find_scalars(value);
    if tokens.len() != width {
        assert(texts(tokens@).len() == tokens@.len());
        return None;
    }
    Some(tokens)
}

/// The text placed for a header point whose value must hold `width` scalars,
/// or `None` when it holds another number of them or a malformed token.
pub fn avm_point(value: &str, width: usize) -> (r: Option<String>)
    requires
        width == 2 || width == 4,
    ensures
        r matches Some(t) ==> value_holds(value@, width as nat) && t@ == avm_point_text(value@),
        r is None ==> !value_holds(value@, width as nat),
{
    let tokens = match value_scalars(value, width) {
        Some(t) => t,
        None => return None,
    };
    let ghost ts = texts(tokens@);
    assert(ts[0] == tokens@[0]@ && ts[1] == tokens@[1]@);
    let mut out = String::new();
    if width == 4 {
        assert(ts[2] == tokens@[2]@ && ts[3] == tokens@[3]@);
        out.append(tokens[1].as_str());
        out.append(AVM_COORD_SEPARATOR);
        out.append(tokens[0].as_str());
        out.append(AVM_COORD_SEPARATOR);
        out.append(tokens[3].as_str());
        out.append(AVM_COORD_SEPARATOR);
        out.append(tokens[2].as_str());
        proof {
            let a = arranged(ts);
            let sep = AVM_COORD_SEPARATOR@;
            lemma_join_step(a, sep, 0);
            lemma_join_step(a, sep, 1);
            lemma_join_step(a, sep, 2);
            lemma_join_step(a, sep, 3);
            assert(a.take(4) =~= a);
            assert(out@ =~= join(a, sep));
        }
    } else {
        out.append(tokens[0].as_str());
        out.append(AVM_COORD_SEPARATOR);
        out.append(tokens[1].as_str());
        proof {
            let a = arranged(ts);
            let sep = AVM_COORD_SEPARATOR@;
            lemma_join_step(a, sep, 0);
            lemma_join_step(a, sep, 1);
            assert(a.take(2) =~= a);
            assert(out@ =~= join(a, sep));
        }
    }
    Some(out)
}

/// Appends the commitment point statements for `ic` to `out`, or reports
/// `MalformedScalar` when a point value does not consist of exactly two scalars.
pub fn push_avm_ic_body(out: &mut String, ic: &Vec<String>) -> (r: Result<(), KeyError>)
    ensures
        r is Ok <==> forall|i: int| 0 <= i < ic@.len() ==> #[trigger] value_holds(ic@[i]@, 2),
        r is Ok ==> final(out)@ == old(out)@ + avm_ic_body(texts(ic@)),
        r matches Err(e) ==> e == KeyError::MalformedScalar,
{
    let ghost entries = avm_ic_entries(texts(ic@));
    let mut i: usize = 0;
    while i < ic.len()
        invariant
            entries == avm_ic_entries(texts(ic@)),
            i <= ic@.len(),
            out@ == old(out)@ + join(entries.take(i as int), IC_SEPARATOR@),
            forall|j: int| 0 <= j < i ==> #[trigger] value_holds(ic@[j]@, 2),
        decreases ic@.len() - i,
    {
        let tokens = match value_scalars(ic[i].as_str(), 2) {
            Some(t) => t,
            None => return Err(KeyError::MalformedScalar),
        };
        let ghost ts = texts(tokens@);
        assert(ts[0] == tokens@[0]@ && ts[1] == tokens@[1]@);
        if i > 0 {
            out.append(IC_SEPARATOR);
        }
        out.append(AVM_IC_ENTRY_OPEN);
        push_decimal(out, i);
        out.append(AVM_IC_ENTRY_MID);
        out.append(tokens[0].as_str());
        out.append(AVM_IC_COORD_SEPARATOR);
        out.append(tokens[1].as_str());
        out.append(AVM_IC_ENTRY_CLOSE);
        proof {
            lemma_join_step(entries, IC_SEPARATOR@, i as int);
            assert(texts(ic@)[i as int] == ic@[i as int]@);
            assert(entries[i as int] == avm_ic_entry(i as nat, ic@[i as int]@));
            assert(out@ =~= old(out)@ + join(entries.take(i + 1), IC_SEPARATOR@));
        }
        i = i + 1;
    }
    assert(entries.take(ic@.len() as int) =~= entries);
    Ok(())
}

/// The AVM verifier contract for `key`: the scalars in place, then each
/// written as its quoted digits; `MalformedScalar` when a value holds a
/// number of scalars that its point does not have.
pub fn render_avm_contract(key: &KeyDocument) -> (r: Result<String, KeyError>)
    requires
        key.header@.len() == HEADER_LINES,
    ensures
        avm_scalars_ok(key@) ==> (r matches Ok(s) && s@ == quoted_scalars(avm_contract(key@))),
        !avm_scalars_ok(key@) ==> r == Err::<String, KeyError>(KeyError::MalformedScalar),
{
    let mut out = String::new();
    let mut k: usize = 0;
    while k < HEADER_LINES
        invariant
            key.header@.len() == HEADER_LINES,
            k <= HEADER_LINES,
            out@ == interleave(avm_header_pieces(), avm_header_texts(key@.header), k as nat),
            forall|j: int|
                0 <= j < k ==> #[trigger] value_holds(key@.header[j], field_width(j)),
        decreases HEADER_LINES - k,
    {
        let width: usize = if k == 1 || k == 4 {
            2
        } else {
            4
        };
        assert(key@.header[k as int] == key.header@[k as int]@);
        assert(width as nat == field_width(k as int));
        let text = match avm_point(key.header[k].as_str(), width) {
            Some(t) => t,
            None => {
                assert(!value_holds(key@.header[k as int], field_width(k as int)));
                return Err(KeyError::MalformedScalar);
            },
        };
        out.append(avm_header_piece(k));
        out.append(text.as_str());
        assert(out@ =~= interleave(
            avm_header_pieces(),
            avm_header_texts(key@.header),
            (k + 1) as nat,
        ));
        k = k + 1;
    }
    let n = key.ic.len();
    out.append(AVM_IC_LENGTH_OPEN);
    push_decimal(&mut out, n);
    out.append(AVM_IC_POINTS_OPEN);
    match push_avm_ic_body(&mut out, &key.ic) {
        Ok(()) => {},
        Err(e) => {
            proof {
                let i = choose|i: int|
                    0 <= i < key.ic@.len() && !#[trigger] value_holds(key.ic@[i]@, 2);
                assert(key@.ic[i] == key.ic@[i]@);
            }
            return Err(e);
        },
    }
    out.append(AVM_TAIL);
    proof {
        assert forall|i: int| 0 <= i < key@.ic.len() implies #[trigger] value_holds(
            key@.ic[i],
            2,
        ) by {
            assert(key@.ic[i] == key.ic@[i]@);
            assert(value_holds(key.ic@[i]@, 2));
        }
    }
    assert(out@ =~= avm_contract(key@));
    Ok(quote_scalars(out.as_str()))
}

/// The commitment array holds one statement per point and no more; the
/// statement at position `i` stores the two scalars of point `i` under index
/// `i`, so the indices run from 0 to `n - 1` in ascending order without gaps.
pub proof fn lemma_avm_ic_entries_in_order(ic: Seq<Seq<char>>)
    ensures
        avm_ic_entries(ic).len() == ic.len(),
        forall|i: int|
            0 <= i < ic.len() ==> #[trigger] avm_ic_entries(ic)[i] == AVM_IC_ENTRY_OPEN@ + decimal(
                i as nat,
            ) + AVM_IC_ENTRY_MID@ + scalar_tokens(ic[i])[0] + AVM_IC_COORD_SEPARATOR@
                + scalar_tokens(ic[i])[1] + AVM_IC_ENTRY_CLOSE@,
        ic.len() == 1 ==> avm_ic_body(ic) == avm_ic_entry(0, ic[0]),
        ic.len() > 1 ==> avm_ic_body(ic) == avm_ic_body(ic.drop_last()) + IC_SEPARATOR@
            + avm_ic_entry((ic.len() - 1) as nat, ic.last()),
{
    if ic.len() > 1 {
        assert(avm_ic_entries(ic).drop_last() =~= avm_ic_entries(ic.drop_last()));
    }
}

/// Each of the seven header points is placed exactly once, in document
/// order: the arranged scalars of point `k` stand in the contract text right
/// after the fixed text of its field.
pub proof fn lemma_avm_header_values_placed(key: KeyModel, k: int)
    requires
        key.header.len() == HEADER_LINES,
        0 <= k < HEADER_LINES,
    ensures
        ({
            let c = avm_contract(key);
            let p = avm_header_pieces();
            let v = avm_header_texts(key.header);
            let off = interleave_offset(p, v, k);
            &&& off + v[k].len() <= c.len()
            &&& c.subrange(off - p[k].len(), off) == p[k]
            &&& c.subrange(off, off + v[k].len()) == avm_point_text(key.header[k])
        }),
{
    let p = avm_header_pieces();
    let v = avm_header_texts(key.header);
    let h = interleave(p, v, HEADER_LINES as nat);
    let c = avm_contract(key);
    lemma_interleave_places_values(p, v, HEADER_LINES as nat, k);
    let off = interleave_offset(p, v, k);
    assert(c.subrange(0, h.len() as int) =~= h);
    assert(c.subrange(off - p[k].len(), off) =~= h.subrange(off - p[k].len(), off));
    assert(c.subrange(off, off + v[k].len()) =~= h.subrange(off, off + v[k].len()));
}

/// A hex scalar as the quoting writes it: its 64 digits in double quotes.
pub open spec fn quoted_digits(t: Seq<char>) -> Seq<char> {
    seq!['"'] + t.subrange(2, 66) + seq!['"']
}

/// The statement of commitment point `i` after quoting: its two scalars in
/// double quotes, without prefix.
pub open spec fn avm_ic_entry_quoted(i: nat, v: Seq<char>) -> Seq<char> {
    let t = scalar_tokens(v);
    AVM_IC_ENTRY_OPEN@ + decimal(i) + AVM_IC_ENTRY_MID@ + quoted_digits(t[0])
        + AVM_IC_COORD_SEPARATOR@ + quoted_digits(t[1]) + AVM_IC_ENTRY_CLOSE@
}

proof fn lemma_avm_ic_entry_quoted(i: nat, v: Seq<char>)
    requires
        scalar_tokens(v).len() == 2,
    ensures
        quoted_scalars(avm_ic_entry(i, v)) == avm_ic_entry_quoted(i, v),
        avm_ic_entry(i, v).len() > 0,
        avm_ic_entry(i, v)[0] == 'i',
        avm_ic_entry(i, v).last() == ';',
{
    reveal_strlit("ic[");
    reveal_strlit("] = new G1Point(");
    reveal_strlit(", ");
    reveal_strlit(");");
    let t = scalar_tokens(v);
    lemma_scalar_tokens_are_scalars(v);
    assert(t[0].len() == 66 && scalar_at(t[0], 0));
    assert(t[1].len() == 66 && scalar_at(t[1], 0));
    lemma_quoted_scalar(t[0]);
    lemma_quoted_scalar(t[1]);
    let o = AVM_IC_ENTRY_OPEN@;
    let m = AVM_IC_ENTRY_MID@;
    let sp = AVM_IC_COORD_SEPARATOR@;
    let c = AVM_IC_ENTRY_CLOSE@;
    let d = decimal(i);
    lemma_decimal_digits(i);
    let p = o + d + m;
    assert(forall|k: int| 0 <= k < o.len() ==> o[k] != 'x' && o[k] != 'X');
    assert(forall|k: int| 0 <= k < m.len() ==> m[k] != 'x' && m[k] != 'X');
    assert(forall|k: int| 0 <= k < c.len() ==> c[k] != 'x' && c[k] != 'X');
    assert(forall|k: int| 0 <= k < sp.len() ==> sp[k] != 'x' && sp[k] != 'X');
    assert forall|k: int| 0 <= k < p.len() implies p[k] != 'x' && p[k] != 'X' by {
        if k < o.len() {
            assert(p[k] == o[k]);
        } else if k < o.len() + d.len() {
            assert(p[k] == d[k - o.len()]);
        } else {
            assert(p[k] == m[k - o.len() - d.len()]);
        }
    }
    assert(p.last() == m.last());
    let e = avm_ic_entry(i, v);
    assert(e =~= p + (t[0] + (sp + (t[1] + c))));
    lemma_quoted_skip(p, t[0] + (sp + (t[1] + c)));
    lemma_quoted_split(t[0], sp + (t[1] + c));
    lemma_quoted_skip(sp, t[1] + c);
    lemma_quoted_split(t[1], c);
    lemma_quoted_skip(c, Seq::empty());
    assert(c + Seq::<char>::empty() =~= c);
    assert(quoted_scalars(Seq::<char>::empty()) =~= Seq::<char>::empty());
    assert(quoted_scalars(e) =~= avm_ic_entry_quoted(i, v));
    assert(e[0] == o[0]);
    assert(e.last() == c.last());
}

/// After quoting, the commitment array still holds one statement per point
/// and no more, under indices 0 to `n - 1` in ascending order, each with its
/// point's two scalars as quoted digits.
pub proof fn lemma_avm_ic_body_quoted(ic: Seq<Seq<char>>)
    requires
        forall|i: int| 0 <= i < ic.len() ==> #[trigger] scalar_tokens(ic[i]).len() == 2,
    ensures
        quoted_scalars(avm_ic_body(ic)) == join(
            Seq::new(ic.len(), |i: int| avm_ic_entry_quoted(i as nat, ic[i])),
            IC_SEPARATOR@,
        ),
        ic.len() > 0 ==> avm_ic_body(ic).len() > 0 && avm_ic_body(ic)[0] == 'i'
            && avm_ic_body(ic).last() == ';',
    decreases ic.len(),
{
    let r = Seq::new(ic.len(), |i: int| avm_ic_entry_quoted(i as nat, ic[i]));
    lemma_avm_ic_entries_in_order(ic);
    if ic.len() == 0 {
        assert(avm_ic_body(ic) =~= Seq::<char>::empty());
        assert(quoted_scalars(Seq::<char>::empty()) =~= Seq::<char>::empty());
    } else if ic.len() == 1 {
        lemma_avm_ic_entry_quoted(0, ic[0]);
    } else {
        let n = (ic.len() - 1) as nat;
        let head = ic.drop_last();
        let e = avm_ic_entry(n, ic.last());
        let sep = IC_SEPARATOR@;
        assert(scalar_tokens(ic.last()).len() == 2);
        lemma_avm_ic_body_quoted(head);
        lemma_avm_ic_entry_quoted(n, ic.last());
        reveal_strlit("\n        ");
        lemma_quoted_split(avm_ic_body(head) + sep, e);
        lemma_quoted_split(avm_ic_body(head), sep);
        assert(forall|k: int| 0 <= k < sep.len() ==> sep[k] != 'x' && sep[k] != 'X');
        lemma_quoted_skip(sep, Seq::empty());
        assert(sep + Seq::<char>::empty() =~= sep);
        assert(quoted_scalars(Seq::<char>::empty()) =~= Seq::<char>::empty());
        assert(r.drop_last() =~= Seq::new(
            head.len(),
            |i: int| avm_ic_entry_quoted(i as nat, head[i]),
        ));
        assert(avm_ic_body(ic)[0] == avm_ic_body(head)[0]);
    }
}

/// The contract text before the commitment point statements.
pub open spec fn avm_contract_head(key: KeyModel) -> Seq<char> {
    interleave(avm_header_pieces(), avm_header_texts(key.header), HEADER_LINES as nat)
        + AVM_IC_LENGTH_OPEN@ + decimal(key.ic.len()) + AVM_IC_POINTS_OPEN@
}

/// The rendered AVM contract after quoting: the commitment array holds one
/// statement per point under indices 0 to `n - 1` in ascending order, each
/// with its point's scalars as quoted digits, and nothing when `n` is 0.
pub proof fn lemma_avm_contract_quoted(key: KeyModel)
    requires
        avm_scalars_ok(key),
    ensures
        quoted_scalars(avm_contract(key)) == quoted_scalars(avm_contract_head(key)) + join(
            Seq::new(key.ic.len(), |i: int| avm_ic_entry_quoted(i as nat, key.ic[i])),
            IC_SEPARATOR@,
        ) + quoted_scalars(AVM_TAIL@),
{
    reveal_strlit("];\n        ");
    let h = avm_contract_head(key);
    let b = avm_ic_body(key.ic);
    let t = AVM_TAIL@;
    assert(forall|i: int|
        0 <= i < key.ic.len() ==> #[trigger] value_holds(key.ic[i], 2));
    assert forall|i: int| 0 <= i < key.ic.len() implies #[trigger] scalar_tokens(key.ic[i]).len()
        == 2 by {
        assert(value_holds(key.ic[i], 2));
    }
    lemma_avm_ic_body_quoted(key.ic);
    assert(avm_contract(key) =~= h + b + t);
    assert(h.last() == ' ');
    if key.ic.len() == 0 {
        assert(b =~= Seq::<char>::empty());
        assert(h + b =~= h);
        lemma_quoted_split_after(h, t);
        assert(quoted_scalars(b) =~= Seq::<char>::empty());
    } else {
        assert((h + b).last() == ';');
        lemma_quoted_split_after(h + b, t);
        lemma_quoted_split(h, b);
    }
}

} // verus!
