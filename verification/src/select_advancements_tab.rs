//! The clientbound packet that selects a tab of the advancements screen.
use vstd::prelude::*;
use crate::ser::{bool_bytes, fits_protocol_string, fits_string, string_bytes, write_bool, write_string};

verus! {

/// Selects the advancements tab with the given id, or no tab at all.
pub struct CSelectAdvancementsTab<'a> {
    pub tab_id: Option<&'a str>,
}

impl<'a> CSelectAdvancementsTab<'a> {
    /// Makes the packet for the given tab, or for none.
    #[must_use]
    pub fn new(tab_id: Option<&'a str>) -> (r: Self)
        ensures
            r.tab_id == tab_id,
    {
        Self { tab_id }
    }

    /// Makes the packet that selects no tab.
    pub fn empty() -> (r: Self)
        ensures
            r.tab_id is None,
    {
        Self { tab_id: None }
    }

    /// Whether the tab id, if any, fits in a protocol string.
    pub open spec fn fits(&self) -> bool {
        self.tab_id matches Some(id) ==> fits_protocol_string(id@)
    }

    /// The packet's bytes on the wire: a flag, then the tab id when there is one.
    pub open spec fn spec_bytes(&self) -> Seq<u8> {
        match self.tab_id {
            Some(id) => bool_bytes(true) + string_bytes(id@),
            None => bool_bytes(false),
        }
    }

    /// Whether the tab id, if any, fits in a protocol string.
    pub fn strings_fit(&self) -> (r: bool)
        ensures
            r == self.fits(),
    {
        match self.tab_id {
            Some(id) => fits_string(id),
            None => true,
        }
    }

    /// Appends the packet's bytes to `buf`.
    pub fn write_packet_data(&self, buf: &mut Vec<u8>)
        requires
            self.fits(),
        ensures
            final(buf)@ == old(buf)@ + self.spec_bytes(),
    {
        match self.tab_id {
            Some(id) => {
                write_bool(buf, true);
                write_string(buf, id);
            },
            None => write_bool(buf, false),
        }
    }
}

} // verus!
