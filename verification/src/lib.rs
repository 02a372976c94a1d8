//! Readers and converters for Eurocom EngineX data: texture pixel decoding
//! for every supported platform, entity strip assembly, hashcode names,
//! animation scripts and text spreadsheets.
use vstd::prelude::*;

pub mod bytes;
pub mod entities;
pub mod filelist;
pub mod gltf_export;
pub mod hashcodes;
pub mod maps;
pub mod platform;
pub mod script;
pub mod spreadsheets;
pub mod text;
pub mod texture;
pub mod textures;
pub mod viewer;

verus! {

/// A value read for the object with the given hashcode, or why it could not
/// be read.
#[derive(Debug)]
pub struct IdentifiableResult<T: Clone> {
    pub hashcode: u32,
    pub data: Result<T, String>,
}

impl<T: Clone> IdentifiableResult<T> {
    pub fn new(hashcode: u32, data: Result<T, String>) -> (r: Self)
        ensures
            r.hashcode == hashcode,
            r.data == data,
    {
        Self { hashcode, data }
    }
}

impl<T: Clone> Clone for IdentifiableResult<T> {
    fn clone(&self) -> (r: Self)
        ensures
            r.hashcode == self.hashcode,
            r.data is Ok <==> self.data is Ok,
            r.data matches Ok(d2) ==> (self.data matches Ok(d) && cloned(d, d2)),
            r.data matches Err(e) ==> self.data == Err::<T, String>(e),
    {
        let data = match &self.data {
            Ok(d) => Ok(d.clone()),
            Err(e) => Err(e.clone()),
        };
        Self { hashcode: self.hashcode, data }
    }
}

} // verus!
