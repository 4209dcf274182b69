use vstd::prelude::*;
use vstd::string::{StringExecFns, StrSliceExecFns};

use crate::defs::PadDefinition;
use crate::display::u32_to_dec;

verus! {

/// A validity window, as seconds of Unix time.
#[derive(Clone, Copy, Debug, PartialEq, Eq, Structural)]
pub struct Validity {
    pub not_before: i64,
    pub not_after: i64,
}

/// Issuance-timing configuration: how long a freshly issued object is valid.
#[derive(Clone, Copy, Debug, PartialEq, Eq, Structural)]
pub struct IssuanceTiming {
    pub validity_seconds: u32,
}

impl IssuanceTiming {
    /// The window of an object issued at `now`.
    pub open spec fn validity_at(self, now: i64) -> Validity {
        Validity { not_before: now, not_after: (now + self.validity_seconds) as i64 }
    }

    /// Whether a window issued at `now` stays within the representable range.
    pub open spec fn fits(self, now: i64) -> bool {
        now + self.validity_seconds <= i64::MAX
    }

    /// Compute the validity window for an object issued at `now`.
    pub fn new_pad_validity(&self, now: i64) -> (r: Validity)
        requires
            self.fits(now),
        ensures
            r == self.validity_at(now),
    {
        Validity { not_before: now, not_after: now + self.validity_seconds as i64 }
    }
}

/// Mathematical value of a signed artifact.
#[verifier::ext_equal]
pub ghost struct ArtifactView {
    pub validity: Validity,
    pub serial: u128,
    pub signed_object_uri: Option<Seq<char>>,
    pub content: Seq<u8>,
}

/// A signed, encoded PAD artifact, as the signing boundary hands it back:
/// the embedded certificate's validity window and serial number, the
/// self-declared object location, and the encoded object bytes.
#[derive(Debug)]
pub struct SignedArtifact {
    pub validity: Validity,
    pub serial: u128,
    pub signed_object_uri: Option<String>,
    pub content: Vec<u8>,
}

impl View for SignedArtifact {
    type V = ArtifactView;

    open spec fn view(&self) -> ArtifactView {
        ArtifactView {
            validity: self.validity,
            serial: self.serial,
            signed_object_uri: match self.signed_object_uri {
                Some(u) => Some(u@),
                None => None,
            },
            content: self.content@,
        }
    }
}

/// Why the signing boundary failed.
#[derive(Clone, Copy, Debug, PartialEq, Eq, Structural)]
pub enum SigningError {
    /// The signing key is not available.
    KeyUnavailable,
    /// The object builder was misused.
    BuilderMisuse,
    /// The artifact could not be encoded.
    EncodingFailed,
}

/// The signing boundary: an external capability that turns a definition and
/// a requested validity window into a signed, encoded artifact, or fails.
///
/// An implementation must embed the requested window and a serial unique
/// within the issuing key's serial space, and must declare the object's own
/// location, derived from the definition's AS by the key's naming scheme.
/// Only the first and the last of these are stated here; the reconciliation
/// algorithms rely on nothing else.
pub trait Signer {
    /// Sign one PAD object for this definition.
    fn sign(&mut self, definition: &PadDefinition, validity: Validity) -> (r: Result<
        SignedArtifact,
        SigningError,
    >)
        ensures
            r matches Ok(a) ==> a@.validity == validity && a@.signed_object_uri is Some,
    ;
}

/// A deterministic fake signer: fabricates artifacts with sequential serial
/// numbers and a fixed naming scheme, and never fails. Meant for tests and
/// for exercising the engine without key material.
#[derive(Debug)]
pub struct FakeSigner {
    next_serial: u128,
}

impl FakeSigner {
    pub fn new() -> (r: Self) {
        FakeSigner { next_serial: 1 }
    }
}

impl Signer for FakeSigner {
    /// Fabricates an artifact and never fails.
    fn sign(&mut self, definition: &PadDefinition, validity: Validity) -> (r: Result<
        SignedArtifact,
        SigningError,
    >)
        ensures
            r is Ok,
    {
        let serial = self.next_serial;
        if self.next_serial < u128::MAX {
            self.next_serial = self.next_serial + 1;
        }
        let mut location: String = "rsync://repository.example/pad/".to_owned();
        let digits = u32_to_dec(definition.asn());
        location.append(digits.as_str());
        location.append(".pad");
        let content = location.as_str().as_bytes_vec();
        Ok(SignedArtifact { validity, serial, signed_object_uri: Some(location), content })
    }
}

} // verus!
