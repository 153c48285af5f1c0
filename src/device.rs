use vstd::prelude::*;

verus! {

/// The pairing record of one device, as the registry holds it.
#[derive(Debug, Clone)]
pub struct BtDeviceInfo {
    /// Address, six upper-case hexadecimal pairs joined by colons.
    pub mac: String,
    /// Long Term Key, upper-case hexadecimal.
    pub ltk: String,
    /// ERand, in decimal.
    pub erand: String,
    /// EDIV, in decimal.
    pub ediv: String,
}

pub ghost struct BtDeviceInfoView {
    pub mac: Seq<char>,
    pub ltk: Seq<char>,
    pub erand: Seq<char>,
    pub ediv: Seq<char>,
}

impl View for BtDeviceInfo {
    type V = BtDeviceInfoView;

    open spec fn view(&self) -> BtDeviceInfoView {
        BtDeviceInfoView { mac: self.mac@, ltk: self.ltk@, erand: self.erand@, ediv: self.ediv@ }
    }
}

impl PartialEq for BtDeviceInfo {
    fn eq(&self, o: &BtDeviceInfo) -> (r: bool) {
        self.mac == o.mac && self.ltk == o.ltk && self.erand == o.erand && self.ediv == o.ediv
    }
}

impl vstd::std_specs::cmp::PartialEqSpecImpl for BtDeviceInfo {
    open spec fn obeys_eq_spec() -> bool {
        true
    }

    open spec fn eq_spec(&self, o: &BtDeviceInfo) -> bool {
        self@ == o@
    }
}

impl BtDeviceInfo {
    pub fn new(mac: String, ltk: String, erand: String, ediv: String) -> (r: BtDeviceInfo)
        ensures
            r@ == (BtDeviceInfoView { mac: mac@, ltk: ltk@, erand: erand@, ediv: ediv@ }),
    {
        BtDeviceInfo { mac, ltk, erand, ediv }
    }
}

} // verus!
