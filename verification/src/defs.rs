use vstd::prelude::*;
use vstd::string::StringExecFns;

use crate::display::{dec_seq, u32_to_dec};
use crate::uri::{parse_of, parse_uri, valid_uri_spec, Uri, UriView};

verus! {

/// Mathematical value of a PAD definition.
#[verifier::ext_equal]
pub ghost struct DefView {
    pub asn: u32,
    pub uri: UriView,
}

/// Why a proposed definition was not accepted.
#[derive(Clone, Copy, Debug, PartialEq, Eq, Structural)]
pub enum ValidationError {
    /// The target could not be parsed as an absolute URI at all.
    NotAUri,
    /// The target parsed, but violates the URI policy.
    InvalidUri,
}

/// One PAD definition: the AS number it concerns and the target URI of the
/// peering API for that AS.
#[derive(Debug)]
pub struct PadDefinition {
    asn: u32,
    peering_api_uri: Uri,
}

impl View for PadDefinition {
    type V = DefView;

    closed spec fn view(&self) -> DefView {
        DefView { asn: self.asn, uri: self.peering_api_uri@ }
    }
}

impl Clone for PadDefinition {
    fn clone(&self) -> (res: Self)
        ensures
            res@ == self@,
    {
        PadDefinition { asn: self.asn, peering_api_uri: self.peering_api_uri.clone() }
    }
}

/// The rendering of one definition: the AS number, an arrow, the target URI.
pub open spec fn def_display(d: DefView) -> Seq<char> {
    dec_seq(d.asn as nat) + " => "@ + d.uri.serialized
}

impl PadDefinition {
    pub fn new(asn: u32, peering_api_uri: Uri) -> (r: Self)
        ensures
            r@ == (DefView { asn, uri: peering_api_uri@ }),
    {
        PadDefinition { asn, peering_api_uri }
    }

    pub fn unpack(self) -> (r: (u32, Uri))
        ensures
            r.0 == self@.asn,
            r.1@ == self@.uri,
    {
        (self.asn, self.peering_api_uri)
    }

    pub fn asn(&self) -> (r: u32)
        ensures
            r == self@.asn,
    {
        self.asn
    }

    pub fn peering_api_uri(&self) -> (r: &Uri)
        ensures
            r@ == self@.uri,
    {
        &self.peering_api_uri
    }

    /// Whether the target URI meets the validation policy. Callers must
    /// check this before committing a definition to persistent state.
    pub fn valid_uri(&self) -> (r: bool)
        ensures
            r == valid_uri_spec(self@.uri),
    {
        self.peering_api_uri.is_valid()
    }

    /// Replace the target URI, keeping the AS number.
    pub fn apply_update(&mut self, update: &PadUpdate)
        ensures
            final(self)@ == (DefView { asn: old(self)@.asn, uri: update@ }),
    {
        self.peering_api_uri = update.peering_api_uri.clone();
        proof {
            assert(self@ =~= DefView { asn: old(self)@.asn, uri: update@ });
        }
    }

    /// Whether the two definitions agree in every field.
    pub fn same_as(&self, other: &PadDefinition) -> (r: bool)
        ensures
            r == (self@ == other@),
    {
        let r = self.asn == other.asn && self.peering_api_uri.same_as(&other.peering_api_uri);
        proof {
            if r {
                assert(self@ =~= other@);
            }
        }
        r
    }

    /// The definition-acceptance path: parse the target, then apply the
    /// URI policy. Only definitions that pass both may enter a table.
    ///
    /// Acceptance succeeds exactly when the target parses and the parsed
    /// URI meets the policy; the error says which of the two failed.
    pub fn accept(asn: u32, uri_text: &str) -> (r: Result<PadDefinition, ValidationError>)
        ensures
            r is Ok <==> (parse_of(uri_text@) matches Some(u) && valid_uri_spec(u)),
            r matches Ok(d) ==> d@.asn == asn && d@.uri == parse_of(uri_text@)->Some_0
                && valid_uri_spec(d@.uri),
            r matches Err(e) ==> (e == ValidationError::NotAUri <==> parse_of(uri_text@) is None),
            r matches Err(e) ==> (e == ValidationError::InvalidUri <==> (parse_of(uri_text@)
                matches Some(u) && !valid_uri_spec(u))),
    {
        match parse_uri(uri_text) {
            None => Err(ValidationError::NotAUri),
            Some(u) => {
                let d = PadDefinition::new(asn, u);
                if d.valid_uri() {
                    Ok(d)
                } else {
                    Err(ValidationError::InvalidUri)
                }
            },
        }
    }

    /// Render the definition for an operator.
    pub fn display_string(&self) -> (r: String)
        ensures
            r@ == def_display(self@),
    {
        proof {
            reveal_strlit(" => ");
        }
        let mut s = u32_to_dec(self.asn);
        s.append(" => ");
        s.append(self.peering_api_uri.as_string().as_str());
        s
    }
}

/// The key of a stored definition.
pub open spec fn def_key() -> spec_fn(PadDefinition) -> u32 {
    |d: PadDefinition| d@.asn
}

/// The value a stored definition denotes.
pub open spec fn def_val() -> spec_fn(PadDefinition) -> DefView {
    |d: PadDefinition| d@
}

/// The key of a definition value.
pub open spec fn dv_key() -> spec_fn(DefView) -> u32 {
    |d: DefView| d.asn
}

/// A partial mutation of one definition: the new target URI. The subject AS
/// is supplied by context when the update is applied.
#[derive(Debug)]
pub struct PadUpdate {
    peering_api_uri: Uri,
}

impl View for PadUpdate {
    type V = UriView;

    closed spec fn view(&self) -> UriView {
        self.peering_api_uri@
    }
}

impl Clone for PadUpdate {
    fn clone(&self) -> (res: Self)
        ensures
            res@ == self@,
    {
        PadUpdate { peering_api_uri: self.peering_api_uri.clone() }
    }
}

/// The rendering of one update.
pub open spec fn update_display(u: UriView) -> Seq<char> {
    "new peering URI: "@ + u.serialized
}

impl PadUpdate {
    pub fn new(peering_api_uri: Uri) -> (r: Self)
        ensures
            r@ == peering_api_uri@,
    {
        PadUpdate { peering_api_uri }
    }

    pub fn peering_api_uri(&self) -> (r: &Uri)
        ensures
            r@ == self@,
    {
        &self.peering_api_uri
    }

    /// Render the update for an operator.
    pub fn display_string(&self) -> (r: String)
        ensures
            r@ == update_display(self@),
    {
        proof {
            reveal_strlit("new peering URI: ");
        }
        let mut s: String = "new peering URI: ".to_owned();
        s.append(self.peering_api_uri.as_string().as_str());
        s
    }
}

/// The rendering of a list of definitions, one per line.
pub open spec fn list_display(s: Seq<DefView>) -> Seq<char>
    decreases s.len(),
{
    if s.len() == 0 {
        Seq::empty()
    } else {
        list_display(s.drop_last()) + def_display(s.last()) + "\n"@
    }
}

/// A plain list of definitions, as an operator-facing report.
#[derive(Debug)]
pub struct PadDefinitionList(Vec<PadDefinition>);

impl View for PadDefinitionList {
    type V = Seq<DefView>;

    closed spec fn view(&self) -> Seq<DefView> {
        self.0@.map_values(def_val())
    }
}

impl PadDefinitionList {
    pub fn new(definitions: Vec<PadDefinition>) -> (r: Self)
        ensures
            r@ == definitions@.map_values(def_val()),
    {
        PadDefinitionList(definitions)
    }

    /// The listed definitions.
    pub fn definitions(&self) -> (r: &Vec<PadDefinition>)
        ensures
            r@.map_values(def_val()) == self@,
    {
        &self.0
    }

    /// Render the list, one definition per line.
    pub fn display_string(&self) -> (r: String)
        ensures
            r@ == list_display(self@),
    {
        let ghost vs = self@;
        let mut s = String::new();
        let mut i: usize = 0;
        while i < self.0.len()
            invariant
                i <= self.0@.len(),
                vs == self@,
                vs.len() == self.0@.len(),
                s@ == list_display(vs.take(i as int)),
            decreases self.0@.len() - i,
        {
            let line = self.0[i].display_string();
            s.append(line.as_str());
            s.append("\n");
            proof {
                assert(vs[i as int] == self.0@[i as int]@);
                let post = vs.take(i as int + 1);
                assert(post.drop_last() =~= vs.take(i as int));
                assert(post.last() == vs[i as int]);
            }
            i += 1;
        }
        proof {
            assert(vs.take(vs.len() as int) =~= vs);
        }
        s
    }
}

/// Mathematical value of a definition batch update.
#[verifier::ext_equal]
pub ghost struct DeltaView {
    pub update: Seq<DefView>,
    pub remove: Seq<u32>,
}

/// The rendering of the definitions of a batch, space-separated.
pub open spec fn defs_inline(s: Seq<DefView>) -> Seq<char>
    decreases s.len(),
{
    if s.len() == 0 {
        Seq::empty()
    } else {
        defs_inline(s.drop_last()) + " "@ + def_display(s.last())
    }
}

/// The rendering of the AS numbers of a batch, space-separated.
pub open spec fn asns_inline(s: Seq<u32>) -> Seq<char>
    decreases s.len(),
{
    if s.len() == 0 {
        Seq::empty()
    } else {
        asns_inline(s.drop_last()) + " "@ + dec_seq(s.last() as nat)
    }
}

/// The rendering of a whole batch update.
pub open spec fn delta_display(d: DeltaView) -> Seq<char> {
    "Update PAD definitions: "@ + (if d.update.len() > 0 {
        " update:"@ + defs_inline(d.update)
    } else {
        Seq::<char>::empty()
    }) + (if d.remove.len() > 0 {
        " remove where ASN is:"@ + asns_inline(d.remove)
    } else {
        Seq::<char>::empty()
    })
}

/// A bulk command against a definition table: definitions to insert or
/// replace, and AS numbers whose definitions are to be dropped.
#[derive(Debug)]
pub struct PadDefinitionUpdates {
    update: Vec<PadDefinition>,
    remove: Vec<u32>,
}

impl View for PadDefinitionUpdates {
    type V = DeltaView;

    closed spec fn view(&self) -> DeltaView {
        DeltaView { update: self.update@.map_values(def_val()), remove: self.remove@ }
    }
}

impl PadDefinitionUpdates {
    pub fn new(update: Vec<PadDefinition>, remove: Vec<u32>) -> (r: Self)
        ensures
            r@ == (DeltaView { update: update@.map_values(def_val()), remove: remove@ }),
    {
        PadDefinitionUpdates { update, remove }
    }

    /// Take the batch apart.
    pub fn unpack(self) -> (r: (Vec<PadDefinition>, Vec<u32>))
        ensures
            r.0@.map_values(def_val()) == self@.update,
            r.1@ == self@.remove,
    {
        (self.update, self.remove)
    }

    /// Render the batch for an operator.
    pub fn display_string(&self) -> (r: String)
        ensures
            r@ == delta_display(self@),
    {
        proof {
            reveal_strlit("Update PAD definitions: ");
        }
        let ghost uv = self@.update;
        let ghost rv = self@.remove;
        let mut s: String = "Update PAD definitions: ".to_owned();
        if !self.update.is_empty() {
            s.append(" update:");
            let mut i: usize = 0;
            while i < self.update.len()
                invariant
                    i <= self.update@.len(),
                    uv == self@.update,
                    rv == self@.remove,
                    uv.len() == self.update@.len(),
                    s@ == "Update PAD definitions: "@ + " update:"@ + defs_inline(
                        uv.take(i as int),
                    ),
                decreases self.update@.len() - i,
            {
                s.append(" ");
                let line = self.update[i].display_string();
                s.append(line.as_str());
                proof {
                    assert(uv[i as int] == self.update@[i as int]@);
                    let post = uv.take(i as int + 1);
                    assert(post.drop_last() =~= uv.take(i as int));
                    assert(post.last() == uv[i as int]);
                    assert(s@ =~= "Update PAD definitions: "@ + " update:"@ + defs_inline(post));
                }
                i += 1;
            }
            proof {
                assert(uv.take(uv.len() as int) =~= uv);
            }
        }
        let ghost mid = s@;
        if !self.remove.is_empty() {
            s.append(" remove where ASN is:");
            let mut i: usize = 0;
            while i < self.remove.len()
                invariant
                    i <= self.remove@.len(),
                    rv == self@.remove,
                    rv.len() == self.remove@.len(),
                    s@ == mid + " remove where ASN is:"@ + asns_inline(rv.take(i as int)),
                decreases self.remove@.len() - i,
            {
                s.append(" ");
                let digits = u32_to_dec(self.remove[i]);
                s.append(digits.as_str());
                proof {
                    let post = rv.take(i as int + 1);
                    assert(post.drop_last() =~= rv.take(i as int));
                    assert(post.last() == rv[i as int]);
                    assert(s@ =~= mid + " remove where ASN is:"@ + asns_inline(post));
                }
                i += 1;
            }
            proof {
                assert(rv.take(rv.len() as int) =~= rv);
            }
        }
        proof {
            assert(s@ =~= delta_display(self@));
        }
        s
    }
}

} // verus!
