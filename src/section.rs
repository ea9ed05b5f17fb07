use vstd::prelude::*;
use goblin::pe::section_table::SectionTable;
use crate::text::{utf8_decode, utf8_text};
use crate::types::{Address, Length};

verus! {

#[verifier::external_type_specification]
#[verifier::external_body]
pub struct ExSectionTable(goblin::pe::section_table::SectionTable);

/// Relies on the public fields of goblin's `SectionTable`: the eight bytes
/// of the name, the virtual address, the virtual size, the size of the raw
/// data and the characteristics.
#[verifier::external_body]
fn section_table_fields(s: &SectionTable) -> (r: (Vec<u8>, u32, u32, u32, u32))
    ensures
        r.0@.len() == 8,
{
    (s.name.to_vec(), s.virtual_address, s.virtual_size, s.size_of_raw_data, s.characteristics)
}

/// A section of a loaded PE module.
#[derive(Debug, Clone)]
pub struct Section {
    pub name: String,
    pub virt_addr: Address,
    pub virt_size: Length,
    pub size_of_raw_data: Length,
    pub characteristics: u32,
}

impl Section {
    /// The section that a header describes: the name is the header's name
    /// bytes as text, or empty where they are not valid UTF-8.
    pub fn from_parts(
        name: Vec<u8>,
        virtual_address: u32,
        virtual_size: u32,
        size_of_raw_data: u32,
        characteristics: u32,
    ) -> (r: Section)
        ensures
            r.name@ == match utf8_decode(name@) {
                Some(t) => t,
                None => Seq::<char>::empty(),
            },
            r.virt_addr.0 == virtual_address,
            r.virt_size.0 == virtual_size,
            r.size_of_raw_data.0 == size_of_raw_data,
            r.characteristics == characteristics,
    {
        let text = match utf8_text(name) {
            Some(t) => t,
            None => String::new(),
        };
        Section {
            name: text,
            virt_addr: Address(virtual_address as u64),
            virt_size: Length(virtual_size as u64),
            size_of_raw_data: Length(size_of_raw_data as u64),
            characteristics,
        }
    }

    /// The section that a goblin section header describes.
    pub fn from(s: &SectionTable) -> (r: Section) {
        let (name, virtual_address, virtual_size, size_of_raw_data, characteristics) = section_table_fields(s);
        Section::from_parts(name, virtual_address, virtual_size, size_of_raw_data, characteristics)
    }

    pub fn name(&self) -> (r: &str)
        ensures
            r@ == self.name@,
    {
        self.name.as_str()
    }

    pub fn virt_addr(&self) -> (r: Address)
        ensures
            r == self.virt_addr,
    {
        self.virt_addr
    }

    pub fn virt_size(&self) -> (r: Length)
        ensures
            r == self.virt_size,
    {
        self.virt_size
    }
}

} // verus!
