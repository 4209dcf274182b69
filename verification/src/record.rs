use vstd::prelude::*;

use crate::defs::{DefView, PadDefinition};
use crate::signer::{SignedArtifact, Validity};

verus! {

/// What `rpki`'s base64 encoder returns for given content bytes.
pub uninterp spec fn base64_of(content: Seq<u8>) -> Seq<char>;

/// What SHA-256 returns for given content bytes.
pub uninterp spec fn sha256_of(content: Seq<u8>) -> Seq<u8>;

/// Relies on `rpki::ca::publication::Base64::from_content`: the base64
/// transport encoding of the content, a function of the bytes alone.
#[verifier::external_body]
fn base64_encode(content: &Vec<u8>) -> (r: String)
    ensures
        r@ == base64_of(content@),
{
    rpki::ca::publication::Base64::from_content(content.as_slice()).as_str().to_owned()
}

/// Relies on `rpki::rrdp::Hash::from_data`: the SHA-256 digest of the data,
/// a function of the bytes alone, 32 bytes long.
#[verifier::external_body]
fn sha256(content: &Vec<u8>) -> (r: Vec<u8>)
    ensures
        r@ == sha256_of(content@),
        r@.len() == 32,
{
    rpki::rrdp::Hash::from_data(content.as_slice()).as_slice().to_vec()
}

/// Mathematical value of an issued-object record.
#[verifier::ext_equal]
pub ghost struct InfoView {
    pub definition: DefView,
    pub validity: Validity,
    pub serial: u128,
    pub uri: Seq<char>,
    pub base64: Seq<char>,
    pub hash: Seq<u8>,
}

/// The record's encoding and digest agree: both were derived from the bytes
/// of one signed artifact.
pub open spec fn wf_record(info: InfoView) -> bool {
    exists|content: Seq<u8>|
        info.base64 == base64_of(content) && info.hash == #[trigger] sha256_of(content)
}

/// The key of a stored record.
pub open spec fn info_key() -> spec_fn(PadInfo) -> u32 {
    |p: PadInfo| p@.definition.asn
}

/// The value a stored record denotes.
pub open spec fn info_val() -> spec_fn(PadInfo) -> InfoView {
    |p: PadInfo| p@
}

/// Metadata summarizing one issued, signed PAD object: the definition
/// snapshot it was issued for, its validity window and serial, its canonical
/// location, its transport encoding and the digest of the encoded object.
#[derive(Debug)]
pub struct PadInfo {
    definition: PadDefinition,
    validity: Validity,
    serial: u128,
    uri: String,
    base64: String,
    hash: Vec<u8>,
}

impl View for PadInfo {
    type V = InfoView;

    closed spec fn view(&self) -> InfoView {
        InfoView {
            definition: self.definition@,
            validity: self.validity,
            serial: self.serial,
            uri: self.uri@,
            base64: self.base64@,
            hash: self.hash@,
        }
    }
}

impl Clone for PadInfo {
    fn clone(&self) -> (res: Self)
        ensures
            res@ == self@,
    {
        let r = PadInfo {
            definition: self.definition.clone(),
            validity: self.validity,
            serial: self.serial,
            uri: self.uri.clone(),
            base64: self.base64.clone(),
            hash: self.hash.clone(),
        };
        proof {
            assert(r@ =~= self@);
        }
        r
    }
}

impl PadInfo {
    /// Derive the record for a freshly signed artifact: validity, serial and
    /// location from the artifact, then encode and hash the object bytes.
    ///
    /// The artifact must declare its own location; the signing boundary owes
    /// one for every artifact it returns, so a missing location is a
    /// contract breach there, not an input this path accepts.
    pub fn new(definition: PadDefinition, pad: SignedArtifact) -> (r: Self)
        requires
            pad@.signed_object_uri is Some,
        ensures
            r@ == (InfoView {
                definition: definition@,
                validity: pad@.validity,
                serial: pad@.serial,
                uri: pad@.signed_object_uri->Some_0,
                base64: base64_of(pad@.content),
                hash: sha256_of(pad@.content),
            }),
            wf_record(r@),
    {
        let SignedArtifact { validity, serial, signed_object_uri, content } = pad;
        let uri = match signed_object_uri {
            Some(u) => u,
            None => unreached(),
        };
        let base64 = base64_encode(&content);
        let hash = sha256(&content);
        let r = PadInfo { definition, validity, serial, uri, base64, hash };
        proof {
            assert(r@.base64 == base64_of(pad@.content) && r@.hash == sha256_of(pad@.content));
        }
        r
    }

    /// Build the record for a freshly issued PAD object.
    pub fn new_pad(definition: PadDefinition, pad: SignedArtifact) -> (r: Self)
        requires
            pad@.signed_object_uri is Some,
        ensures
            r@ == (InfoView {
                definition: definition@,
                validity: pad@.validity,
                serial: pad@.serial,
                uri: pad@.signed_object_uri->Some_0,
                base64: base64_of(pad@.content),
                hash: sha256_of(pad@.content),
            }),
            wf_record(r@),
    {
        PadInfo::new(definition, pad)
    }

    /// The definition snapshot this object was issued for.
    pub fn definition(&self) -> (r: &PadDefinition)
        ensures
            r@ == self@.definition,
    {
        &self.definition
    }

    /// The AS the object concerns.
    pub fn asn(&self) -> (r: u32)
        ensures
            r == self@.definition.asn,
    {
        self.definition.asn()
    }

    /// When the object expires.
    pub fn expires(&self) -> (r: i64)
        ensures
            r == self@.validity.not_after,
    {
        self.validity.not_after
    }

    /// The object's validity window.
    pub fn validity(&self) -> (r: Validity)
        ensures
            r == self@.validity,
    {
        self.validity
    }

    /// The serial number of the embedded certificate.
    pub fn serial(&self) -> (r: u128)
        ensures
            r == self@.serial,
    {
        self.serial
    }

    /// The canonical retrieval location.
    pub fn uri(&self) -> (r: &String)
        ensures
            r@ == self@.uri,
    {
        &self.uri
    }

    /// The transport encoding of the signed object.
    pub fn base64(&self) -> (r: &String)
        ensures
            r@ == self@.base64,
    {
        &self.base64
    }

    /// The digest of the encoded object.
    pub fn hash(&self) -> (r: &Vec<u8>)
        ensures
            r@ == self@.hash,
    {
        &self.hash
    }
}

} // verus!
