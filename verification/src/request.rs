//! What the program sends to the bus service: the request headers that
//! present it as the aibang Android client, and the addresses of the
//! service's documents.
use vstd::prelude::*;
use vstd::string::StringExecFns;

use crate::bus::{i32_to_decimal, signed_decimal};
use crate::text::{decimal, usize_to_decimal};

verus! {

/// The request headers, as `(name, value)` texts, in the order they are set.
pub open spec fn header_pairs() -> Seq<(Seq<char>, Seq<char>)> {
    seq![
        ("SOURCE"@, "1"@),
        ("PKG_SOURCE"@, "1"@),
        ("OS"@, "android"@),
        ("ROM"@, "4.2.1"@),
        ("RESOLUTION"@, "1280*720"@),
        ("MANUFACTURER"@, "2013022"@),
        ("MODEL"@, "2013022"@),
        ("UA"@, "2013022,17,4.2.1,HBJ2.0,Unknown,1280*720"@),
        ("IMSI"@, "233333333333333"@),
        ("IMEI"@, "233333333333333"@),
        ("UID"@, "233333333333333333333333333333333333333"@),
        ("CID"@, "233333333333333333333333333333333333333"@),
        ("PRODUCT"@, "nextbus"@),
        ("PLATFORM"@, "android"@),
        ("VERSION"@, "1.0.5"@),
        ("FIRST_VERSION"@, "2"@),
        ("PRODUCTID"@, "5"@),
        ("VERSIONID"@, "2"@),
        ("CUSTOM"@, "aibang"@),
    ]
}

/// The texts of a list of `(name, value)` pairs.
pub open spec fn pairs_view(v: Seq<(String, String)>) -> Seq<(Seq<char>, Seq<char>)> {
    v.map_values(|p: (String, String)| (p.0@, p.1@))
}

/// One header.
fn header(name: &str, value: &str) -> (h: (String, String))
    ensures
        h.0@ == name@,
        h.1@ == value@,
{
    (name.to_owned(), value.to_owned())
}

/// The headers that every request carries.
pub fn request_headers() -> (h: Vec<(String, String)>)
    ensures
        pairs_view(h@) == header_pairs(),
{
    let mut h: Vec<(String, String)> = Vec::new();
    h.push(header("SOURCE", "1"));
    h.push(header("PKG_SOURCE", "1"));
    h.push(header("OS", "android"));
    h.push(header("ROM", "4.2.1"));
    h.push(header("RESOLUTION", "1280*720"));
    h.push(header("MANUFACTURER", "2013022"));
    h.push(header("MODEL", "2013022"));
    h.push(header("UA", "2013022,17,4.2.1,HBJ2.0,Unknown,1280*720"));
    h.push(header("IMSI", "233333333333333"));
    h.push(header("IMEI", "233333333333333"));
    h.push(header("UID", "233333333333333333333333333333333333333"));
    h.push(header("CID", "233333333333333333333333333333333333333"));
    h.push(header("PRODUCT", "nextbus"));
    h.push(header("PLATFORM", "android"));
    h.push(header("VERSION", "1.0.5"));
    h.push(header("FIRST_VERSION", "2"));
    h.push(header("PRODUCTID", "5"));
    h.push(header("VERSIONID", "2"));
    h.push(header("CUSTOM", "aibang"));
    assert(pairs_view(h@) =~= header_pairs());
    h
}

/// The address of the list of line ids and versions.
pub open spec fn check_update_url_text() -> Seq<char> {
    "http://mc.aibang.com/aiguang/bjgj.c?m=checkUpdate&version=1"@
}

/// The address of the list of line ids and versions.
pub fn check_update_url() -> (u: String)
    ensures
        u@ == check_update_url_text(),
{
    "http://mc.aibang.com/aiguang/bjgj.c?m=checkUpdate&version=1".to_owned()
}

/// The address of the description of line `id`.
pub open spec fn busline_info_url_text(id: int) -> Seq<char> {
    "http://mc.aibang.com/aiguang/bjgj.c?m=update&id="@ + signed_decimal(id)
}

/// The address of the description of line `id`.
pub fn busline_info_url(id: i32) -> (u: String)
    ensures
        u@ == busline_info_url_text(id as int),
{
    let digits = i32_to_decimal(id);
    "http://mc.aibang.com/aiguang/bjgj.c?m=update&id=".to_owned().concat(digits.as_str())
}

/// The address of the real-time document of line `id` for `no` buses: the
/// query pairs `city=北京` (form-urlencoded), `id`, `no`, `type=2`,
/// `encrypt=1`, `versionid=2`.
pub open spec fn realtime_url_text(id: int, no: nat) -> Seq<char> {
    "http://bjgj.aibang.com:8899/bus.php?city=%E5%8C%97%E4%BA%AC&id="@ + signed_decimal(id)
        + "&no="@ + decimal(no) + "&type=2&encrypt=1&versionid=2"@
}

/// The address of the real-time document of line `id` for `no` buses.
pub fn realtime_url(id: i32, no: usize) -> (u: String)
    ensures
        u@ == realtime_url_text(id as int, no as nat),
{
    let id_text = i32_to_decimal(id);
    let no_text = usize_to_decimal(no);
    "http://bjgj.aibang.com:8899/bus.php?city=%E5%8C%97%E4%BA%AC&id=".to_owned()
        .concat(id_text.as_str())
        .concat("&no=")
        .concat(no_text.as_str())
        .concat("&type=2&encrypt=1&versionid=2")
}

} // verus!
