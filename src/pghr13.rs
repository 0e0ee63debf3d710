//! The PGHR13 proof system's verifier export: reads a verification key
//! document and renders it as a verifier contract for either target.
use crate::avm::{avm_contract, avm_scalars_ok, render_avm_contract};
use crate::key::{parse_key, read_key_document, texts, KeyError};
use crate::scalar::{quoted_scalars, uint256_literals};
use crate::solidity::{
    lemma_solidity_input_length, render_solidity_contract, solidity_contract, solidity_tail,
};
use crate::text::decimal;
use vstd::prelude::*;
use vstd::string::*;

verus! {

/// The PGHR13 proof system.
pub struct PGHR13 {}

/// The Solidity library sources that precede a rendered verifier contract: a
/// G2 point addition library and a pairing library in one of two versions,
/// the second for the ABI v2 entry point.
pub struct SolidityLibraries {
    pub g2_addition: String,
    pub pairing: String,
    pub pairing_v2: String,
}

/// The pairing library used with the chosen entry point.
pub open spec fn pairing_library(libs: SolidityLibraries, is_abiv2: bool) -> Seq<char> {
    if is_abiv2 {
        libs.pairing_v2@
    } else {
        libs.pairing@
    }
}

/// The Solidity verifier source for the key document `lines`: the two
/// libraries, then the contract with each hex scalar written as `uint256(...)`.
/// A document without commitment points has no constant term and is refused
/// as `InvalidIcCount`.
pub open spec fn solidity_verifier(
    lines: Seq<Seq<char>>,
    is_abiv2: bool,
    libs: SolidityLibraries,
) -> Result<Seq<char>, KeyError> {
    match parse_key(lines) {
        Err(e) => Err(e),
        Ok(key) => if key.ic.len() == 0 {
            Err(KeyError::InvalidIcCount)
        } else {
            Ok(
                libs.g2_addition@ + pairing_library(libs, is_abiv2) + uint256_literals(
                    solidity_contract(key, is_abiv2),
                ),
            )
        },
    }
}

/// The AVM verifier source for the key document `lines`: the contract with
/// each hex scalar written as its quoted digits.
pub open spec fn avm_verifier(lines: Seq<Seq<char>>) -> Result<Seq<char>, KeyError> {
    match parse_key(lines) {
        Err(e) => Err(e),
        Ok(key) => if avm_scalars_ok(key) {
            Ok(quoted_scalars(avm_contract(key)))
        } else {
            Err(KeyError::MalformedScalar)
        },
    }
}

/// A key document without commitment points is refused by the Solidity
/// export as `InvalidIcCount`, since its verifier would take a negative
/// number of inputs; one with points gets an input array of `n - 1`
/// elements.
pub proof fn lemma_solidity_needs_commitments(
    lines: Seq<Seq<char>>,
    is_abiv2: bool,
    libs: SolidityLibraries,
)
    ensures
        match parse_key(lines) {
            Ok(key) => if key.ic.len() == 0 {
                solidity_verifier(lines, is_abiv2, libs) == Err::<Seq<char>, KeyError>(
                    KeyError::InvalidIcCount,
                )
            } else {
                let c = solidity_contract(key, is_abiv2);
                let t = solidity_tail(is_abiv2);
                let d = decimal((key.ic.len() - 1) as nat);
                &&& solidity_verifier(lines, is_abiv2, libs) is Ok
                &&& c.subrange(c.len() - t.len() - d.len(), c.len() - t.len()) == d
            },
            Err(e) => solidity_verifier(lines, is_abiv2, libs) == Err::<Seq<char>, KeyError>(e),
        },
{
    if let Ok(key) = parse_key(lines) {
        if key.ic.len() > 0 {
            lemma_solidity_input_length(key, is_abiv2);
        }
    }
}

impl PGHR13 {
    pub fn new() -> (r: PGHR13) {
        PGHR13 {  }
    }

    /// Renders the key document `lines` as a Solidity verifier; `is_abiv2`
    /// selects the entry point that takes the proof as one structure.
    pub fn export_solidity_verifier(
        &self,
        lines: &Vec<String>,
        is_abiv2: bool,
        libs: &SolidityLibraries,
    ) -> (r: Result<String, KeyError>)
        ensures
            match solidity_verifier(texts(lines@), is_abiv2, *libs) {
                Ok(t) => r matches Ok(s) && s@ == t,
                Err(e) => r matches Err(f) && f == e,
            },
    {
        let key = match read_key_document(lines) {
            Ok(k) => k,
            Err(e) => return Err(e),
        };
        if key.ic.len() == 0 {
            return Err(KeyError::InvalidIcCount);
        }
        let contract = render_solidity_contract(&key, is_abiv2);
        let mut out = libs.g2_addition.clone();
        if is_abiv2 {
            out.append(libs.pairing_v2.as_str());
        } else {
            out.append(libs.pairing.as_str());
        }
        out.append(contract.as_str());
        Ok(out)
    }

    /// Renders the key document `lines` as an AVM (Java) verifier.
    pub fn export_avm_verifier(&self, lines: &Vec<String>) -> (r: Result<String, KeyError>)
        ensures
            match avm_verifier(texts(lines@)) {
                Ok(t) => r matches Ok(s) && s@ == t,
                Err(e) => r matches Err(f) && f == e,
            },
    {
        let key = match read_key_document(lines) {
            Ok(k) => k,
            Err(e) => return Err(e),
        };
        render_avm_contract(&key)
    }
}

} // verus!
