//! Installing an image: the container reference handed to the puller, and
//! the names under which the store keeps what was pulled.

use vstd::prelude::*;

use crate::numfmt::dec_digit_char;
use crate::reference::Ref;

verus! {

/// The character for one hexadecimal digit value, lowercase.
pub open spec fn hex_digit_char(d: nat) -> char {
    if d < 10 {
        dec_digit_char(d)
    } else if d == 10 {
        'a'
    } else if d == 11 {
        'b'
    } else if d == 12 {
        'c'
    } else if d == 13 {
        'd'
    } else if d == 14 {
        'e'
    } else {
        'f'
    }
}

/// The lowercase hexadecimal rendering of bytes: two digits per byte, high
/// nibble first.
pub open spec fn hex_chars(bs: Seq<u8>) -> Seq<char>
    decreases bs.len(),
{
    if bs.len() == 0 {
        Seq::empty()
    } else {
        hex_chars(bs.drop_last()) + seq![
            hex_digit_char((bs.last() / 16) as nat),
            hex_digit_char((bs.last() % 16) as nat),
        ]
    }
}

/// Relies on hex::encode: each byte becomes two lowercase hexadecimal
/// digits from `0123456789abcdef`, high nibble first.
#[verifier::external_body]
fn hex_encode(data: &[u8]) -> (r: String)
    ensures
        r@ == hex_chars(data@),
{
    hex::encode(data)
}

/// The name under which the image's filesystem is assembled in the store:
/// the hex of the image's configuration digest.
pub fn image_config_name(digest: &[u8]) -> (r: String)
    ensures
        r@ == hex_chars(digest@),
{
    hex_encode(digest)
}

/// The container-image reference handed to the puller: the repository with
/// its scheme rewritten from `https` to `docker`, then the image path.
pub fn image_reference(img_base: &str, img: &str) -> (r: String)
    ensures
        img_base@.len() >= 5 && img_base@.subrange(0, 5) == "https"@ ==> r@ == "docker"@
            + img_base@.skip(5) + img@,
        !(img_base@.len() >= 5 && img_base@.subrange(0, 5) == "https"@) ==> r@ == img_base@ + img@,
{
    let n = img_base.unicode_len();
    let mut s = String::new();
    if n >= 5 && crate::text::str_eq(img_base.substring_char(0, 5), "https") {
        s.append("docker");
        s.append(img_base.substring_char(5, n));
        proof {
            assert(img_base@.subrange(5, n as int) =~= img_base@.skip(5));
        }
    } else {
        s.append(img_base);
    }
    s.append(img);
    s
}

/// The name under which an image is pulled into the store.
pub fn pull_name(r: &Ref) -> (s: String)
    ensures
        s@ == "flatpak-rs/"@ + r@,
{
    let mut s = String::new();
    s.append("flatpak-rs/");
    let text = r.serialize();
    s.append(text.as_str());
    s
}

/// The stable named tree the store gains for an installed reference.
pub fn tree_name(r: &Ref) -> (s: String)
    ensures
        s@ == "refs/flatpak-rs/"@ + r@,
{
    let mut s = String::new();
    s.append("refs/flatpak-rs/");
    let text = r.serialize();
    s.append(text.as_str());
    s
}

/// The path, relative to the store's object directory, of the named link
/// removed before a pull so a fresh name can be written.
pub fn stale_link_path(r: &Ref) -> (s: String)
    ensures
        s@ == "../streams/refs/flatpak-rs/"@ + r@,
{
    let mut s = String::new();
    s.append("../streams/refs/flatpak-rs/");
    let text = r.serialize();
    s.append(text.as_str());
    s
}

} // verus!
