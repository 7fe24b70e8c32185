//! Reading addresses and byte strings from hexadecimal text.

use vstd::prelude::*;
use crate::error::FilterError;

verus! {

/// The 20 bytes that `text` gives as an address; `None` where `text` is not
/// an address.
pub uninterp spec fn address_bytes(text: Seq<char>) -> Option<Seq<u8>>;

/// The bytes that `text` gives as a hexadecimal byte string; `None` where
/// `text` is not one.
pub uninterp spec fn hex_bytes(text: Seq<char>) -> Option<Seq<u8>>;

/// `ethers::types::ParseBytesError`, the error of the byte string parser.
/// Nothing is claimed of what it holds.
#[verifier::external_type_specification]
#[verifier::external_body]
pub struct ExParseBytesError(ethers::types::ParseBytesError);

/// `str::parse::<ethers::types::Address>`, with the address given as its
/// bytes. The contract names what the parser makes of the text and claims
/// that an address has 20 bytes. The parser's error is one of a crate that
/// cannot be named from here, so it is turned into `None`.
#[verifier::external_body]
fn parse_address(text: &str) -> (res: Option<Vec<u8>>)
    ensures
        match res {
            Some(bytes) => address_bytes(text@) == Some(bytes@) && bytes@.len() == 20,
            None => address_bytes(text@) is None,
        },
{
    match text.parse::<ethers::types::Address>() {
        Ok(address) => Some(address.as_bytes().to_vec()),
        Err(_) => None,
    }
}

/// `str::parse::<ethers::types::Bytes>`, with the byte string given as a
/// vector. The contract names what the parser makes of the text.
#[verifier::external_body]
fn parse_bytes(text: &str) -> (res: Result<Vec<u8>, ethers::types::ParseBytesError>)
    ensures
        match res {
            Ok(bytes) => hex_bytes(text@) == Some(bytes@),
            Err(_) => hex_bytes(text@) is None,
        },
{
    match text.parse::<ethers::types::Bytes>() {
        Ok(bytes) => Ok(bytes.to_vec()),
        Err(e) => Err(e),
    }
}

/// The bytes of the address that `text` holds in hexadecimal.
pub fn address(text: &str) -> (res: Result<Vec<u8>, FilterError>)
    ensures
        match res {
            Ok(bytes) => address_bytes(text@) == Some(bytes@) && bytes@.len() == 20,
            Err(e) => e == FilterError::AddressParseError && address_bytes(text@) is None,
        },
{
    match parse_address(text) {
        Some(bytes) => Ok(bytes),
        None => Err(FilterError::AddressParseError),
    }
}

/// The bytes that `text` holds in hexadecimal.
pub fn bytes(text: &str) -> (res: Result<Vec<u8>, FilterError>)
    ensures
        match res {
            Ok(bytes) => hex_bytes(text@) == Some(bytes@),
            Err(e) => e == FilterError::HexParseError && hex_bytes(text@) is None,
        },
{
    match parse_bytes(text) {
        Ok(bytes) => Ok(bytes),
        Err(_) => Err(FilterError::HexParseError),
    }
}

} // verus!
