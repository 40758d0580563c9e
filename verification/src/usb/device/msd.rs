//! The mass storage class, as far as it is told apart from the others.
use vstd::prelude::*;
use vstd::slice::slice_subrange;
use crate::error::DescriptorError;

verus! {

/// What the mass storage class reports. Its endpoints report nothing so far.
#[derive(Debug, Clone, Copy, PartialEq, Eq, Structural)]
pub enum Event {
    /// Traffic that the decoder does not look into.
    Opaque,
}

#[derive(Debug, Clone, Copy, PartialEq, Eq, Structural)]
pub struct InterfaceSubClass {
    pub subclass: u8,
    pub protocol: u8,
}

#[derive(Debug, Clone, Copy, PartialEq, Eq, Structural)]
pub struct ClassSpecificDescriptor;

/// The bytes after the class-specific descriptor at the head of `response`.
///
/// The descriptor says its own length in its first byte; that length covers
/// at least the length and type bytes and at most the buffer.
pub open spec fn skip_descriptor(response: Seq<u8>) -> Result<Seq<u8>, DescriptorError> {
    if response.len() < 2 {
        Err(DescriptorError::Truncated)
    } else if response[0] < 2 {
        Err(DescriptorError::TooShort { got: response[0] })
    } else if response[0] > response.len() {
        Err(DescriptorError::Truncated)
    } else {
        Ok(response.subrange(response[0] as int, response.len() as int))
    }
}

impl ClassSpecificDescriptor {
    /// Steps over one class-specific descriptor and hands back what follows it.
    pub fn parse(response: &[u8]) -> (r: Result<(&[u8], Self), DescriptorError>)
        ensures
            match skip_descriptor(response@) {
                Ok(rest) => r is Ok && r.unwrap().0@ == rest,
                Err(e) => r == Err::<(&[u8], Self), DescriptorError>(e),
            },
    {
        if response.len() < 2 {
            return Err(DescriptorError::Truncated);
        }
        let desc_length: u8 = response[0];
        if desc_length < 2 {
            return Err(DescriptorError::TooShort { got: desc_length });
        }
        if desc_length as usize > response.len() {
            return Err(DescriptorError::Truncated);
        }
        Ok((slice_subrange(response, desc_length as usize, response.len()), ClassSpecificDescriptor))
    }
}

/// The handler of a mass storage endpoint. It takes note of nothing yet.
#[derive(Debug, Clone, Copy, PartialEq, Eq, Structural)]
pub struct MsdEndpoint;

} // verus!
