//! The access-point value type and the parsing of raw descriptors.

use vstd::prelude::*;

verus! {

/// Mathematical value of one observed network; contracts and the
/// deduplication model are stated over this type.
#[verifier::ext_equal]
pub ghost struct ApModel {
    pub ssid: Seq<char>,
    pub hw_address: Seq<char>,
    pub strength: u8,
    pub security_flags: u32,
}

/// The text that lossy UTF-8 decoding yields for the given bytes; invalid
/// sequences become replacement characters. The result depends on the bytes
/// alone, so it only carries a name here.
pub uninterp spec fn utf8_lossy_of(bytes: Seq<u8>) -> Seq<char>;

/// Immutable snapshot of one observed network.
pub struct AccessPoint {
    /// Network name, lossy-decoded from the raw SSID bytes.
    pub ssid: String,
    /// Stable identifier of the radio, kept for display only.
    pub hw_address: String,
    /// Signal strength as an integer percentage.
    pub strength: u8,
    /// Opaque bitset of supported authentication modes.
    pub wpa_flags: u32,
}

impl View for AccessPoint {
    type V = ApModel;

    open spec fn view(&self) -> ApModel {
        ApModel {
            ssid: self.ssid@,
            hw_address: self.hw_address@,
            strength: self.strength,
            security_flags: self.wpa_flags,
        }
    }
}

/// Raw per-network descriptor as retrieved from the network service, one
/// field per fallible read; `None` records that the read failed.
pub struct ApDescriptor {
    pub ssid: Option<Vec<u8>>,
    pub hw_address: Option<String>,
    pub strength: Option<u8>,
    pub wpa_flags: Option<u32>,
}

/// A descriptor is complete when every required field was retrieved.
pub open spec fn complete(d: ApDescriptor) -> bool {
    &&& d.ssid is Some
    &&& d.hw_address is Some
    &&& d.strength is Some
    &&& d.wpa_flags is Some
}

/// The access point a complete descriptor denotes.
pub open spec fn parse_desc(d: ApDescriptor) -> ApModel
    recommends
        complete(d),
{
    ApModel {
        ssid: utf8_lossy_of(d.ssid->0@),
        hw_address: d.hw_address->0@,
        strength: d.strength->0,
        security_flags: d.wpa_flags->0,
    }
}

/// The access points of the complete descriptors, in order; partial
/// descriptors are dropped, not defaulted.
pub open spec fn parsed_of(s: Seq<ApDescriptor>) -> Seq<ApModel>
    decreases s.len(),
{
    if s.len() == 0 {
        Seq::empty()
    } else if complete(s.last()) {
        parsed_of(s.drop_last()).push(parse_desc(s.last()))
    } else {
        parsed_of(s.drop_last())
    }
}

/// Relies on `String::from_utf8_lossy`: the decoded text is a function of
/// the bytes alone; `into_owned` only detaches the result from the borrow.
#[verifier::external_body]
fn decode_lossy(bytes: Vec<u8>) -> (r: String)
    ensures
        r@ == utf8_lossy_of(bytes@),
{
    String::from_utf8_lossy(&bytes).into_owned()
}

impl AccessPoint {
    /// Builds the snapshot for one descriptor. Returns a value exactly when
    /// every required field is present; partial data is discarded.
    pub fn new(d: ApDescriptor) -> (r: Option<AccessPoint>)
        ensures
            r is Some <==> complete(d),
            r matches Some(ap) ==> ap@ == parse_desc(d),
    {
        let ApDescriptor { ssid, hw_address, strength, wpa_flags } = d;
        match (ssid, hw_address, strength, wpa_flags) {
            (Some(bytes), Some(hw_address), Some(strength), Some(wpa_flags)) => {
                Some(AccessPoint { ssid: decode_lossy(bytes), hw_address, strength, wpa_flags })
            },
            _ => None,
        }
    }
}

} // verus!
