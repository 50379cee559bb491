//! The root system-description pointer as the boot stage keeps it: the
//! first-version record, or the second-version (extended) one, which wins
//! when the loader offers both.
use vstd::prelude::*;

verus! {

/// What the loader's first-version RSDP tag holds.
#[derive(Debug, Clone, Copy)]
pub struct RsdpV1 {
    pub signature: &'static str,
    pub checksum_valid: bool,
    pub oem_id: &'static str,
    pub revision: u8,
    pub rsdt_address: usize,
}

/// What the loader's second-version (XSDP) tag holds.
#[derive(Debug, Clone, Copy)]
pub struct RsdpV2 {
    pub signature: &'static str,
    pub checksum_valid: bool,
    pub oem_id: &'static str,
    pub revision: u8,
    pub xsdt_address: usize,
    pub ext_checksum: u8,
}

/// The RSDP the boot stage works with: exactly one of the two records.
pub struct RSDP {
    v1: Option<RsdpV1>,
    v2: Option<RsdpV2>,
}

/// The refusal of `get_ext_checksum` on a first-version record.
pub open spec fn not_xsdp() -> Seq<char> {
    "You're using RSDP, not XSDP!"@
}

impl RSDP {
    #[verifier::type_invariant]
    spec fn one_record(self) -> bool {
        self.v1.is_some() != self.v2.is_some()
    }

    /// The first-version record, when that is the one kept.
    pub closed spec fn first(self) -> Option<RsdpV1> {
        self.v1
    }

    /// The second-version record, when that is the one kept.
    pub closed spec fn second(self) -> Option<RsdpV2> {
        self.v2
    }

    /// Keeps the second-version record if there is one, else the first; a
    /// machine with neither has no ACPI, and the boot stage stops there.
    pub fn new(v1: Option<&RsdpV1>, v2: Option<&RsdpV2>) -> (res: RSDP)
        requires
            v1.is_some() || v2.is_some(),
        ensures
            v2.is_some() ==> res.second() == Some(*v2.unwrap()) && res.first().is_none(),
            v2.is_none() ==> res.first() == Some(*v1.unwrap()) && res.second().is_none(),
    {
        match v2 {
            Some(t) => RSDP { v1: None, v2: Some(*t) },
            None => RSDP { v1: Some(*v1.unwrap()), v2: None },
        }
    }

    /// Whether the kept record's checksum holds.
    pub fn is_checksum_valid(&self) -> (res: bool)
        ensures
            res == (match self.second() {
                Some(t) => t.checksum_valid,
                None => self.first().unwrap().checksum_valid,
            }),
    {
        proof {
            use_type_invariant(self);
        }
        match &self.v2 {
            Some(t) => t.checksum_valid,
            None => self.v1.unwrap().checksum_valid,
        }
    }

    /// The kept record's signature.
    pub fn get_signature(&self) -> (res: &str)
        ensures
            res@ == (match self.second() {
                Some(t) => t.signature@,
                None => self.first().unwrap().signature@,
            }),
    {
        proof {
            use_type_invariant(self);
        }
        match &self.v2 {
            Some(t) => t.signature,
            None => self.v1.unwrap().signature,
        }
    }

    /// The kept record's revision.
    pub fn get_revision(&self) -> (res: u8)
        ensures
            res == (match self.second() {
                Some(t) => t.revision,
                None => self.first().unwrap().revision,
            }),
    {
        proof {
            use_type_invariant(self);
        }
        match &self.v2 {
            Some(t) => t.revision,
            None => self.v1.unwrap().revision,
        }
    }

    /// The root table's address: the XSDT for a second-version record, the
    /// RSDT for a first-version one.
    pub fn get_rsdt_addr(&self) -> (res: usize)
        ensures
            res == (match self.second() {
                Some(t) => t.xsdt_address,
                None => self.first().unwrap().rsdt_address,
            }),
    {
        proof {
            use_type_invariant(self);
        }
        match &self.v2 {
            Some(t) => t.xsdt_address,
            None => self.v1.unwrap().rsdt_address,
        }
    }

    /// The kept record's OEM id.
    pub fn get_oem_id(&self) -> (res: &str)
        ensures
            res@ == (match self.second() {
                Some(t) => t.oem_id@,
                None => self.first().unwrap().oem_id@,
            }),
    {
        proof {
            use_type_invariant(self);
        }
        match &self.v2 {
            Some(t) => t.oem_id,
            None => self.v1.unwrap().oem_id,
        }
    }

    /// The extended checksum, which only a second-version record has.
    pub fn get_ext_checksum(&self) -> (res: Result<u8, &str>)
        ensures
            match self.second() {
                Some(t) => res == Ok::<u8, &str>(t.ext_checksum),
                None => res matches Err(m) && m@ == not_xsdp(),
            },
    {
        match &self.v2 {
            Some(t) => Ok(t.ext_checksum),
            None => Err("You're using RSDP, not XSDP!"),
        }
    }
}

} // verus!
