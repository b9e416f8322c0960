//! What the ffmpeg example says about the library that it is linked with.

use vstd::prelude::*;
use vstd::string::*;

use crate::text;

verus! {

/// One byte of a version number, counted from the lowest.
pub open spec fn version_byte(version: u32, at: nat) -> nat {
    if at == 0 {
        (version % 256) as nat
    } else if at == 1 {
        (version / 256 % 256) as nat
    } else {
        (version / 65536 % 256) as nat
    }
}

/// The line that the example prints. The three lower bytes of the version are its three numbers.
pub open spec fn codec_line(version: u32, configuration: Seq<char>) -> Seq<char> {
    "libavcodec version "@ + text::decimal(version_byte(version, 2)) + "."@ + text::decimal(
        version_byte(version, 1),
    ) + "."@ + text::decimal(version_byte(version, 0)) + ", configured with "@ + configuration
}

/// The line names the three numbers that the version is put together from, whatever its highest
/// byte is.
pub proof fn law_codec_line(
    version: u32,
    configuration: Seq<char>,
    high: nat,
    a: nat,
    b: nat,
    c: nat,
)
    requires
        a < 256,
        b < 256,
        c < 256,
        version == high * 0x100_0000 + a * 0x1_0000 + b * 0x100 + c,
    ensures
        codec_line(version, configuration) == "libavcodec version "@ + text::decimal(a) + "."@
            + text::decimal(b) + "."@ + text::decimal(c) + ", configured with "@ + configuration,
{
    let v = version as int;
    let (h, x, y, z) = (high as int, a as int, b as int, c as int);
    vstd::arithmetic::div_mod::lemma_fundamental_div_mod_converse(
        v,
        0x1_0000,
        h * 256 + x,
        y * 256 + z,
    );
    vstd::arithmetic::div_mod::lemma_fundamental_div_mod_converse(
        v,
        256,
        h * 0x1_0000 + x * 256 + y,
        z,
    );
    vstd::arithmetic::div_mod::lemma_fundamental_div_mod_converse(
        h * 256 + x,
        256,
        h,
        x,
    );
    vstd::arithmetic::div_mod::lemma_fundamental_div_mod_converse(
        h * 0x1_0000 + x * 256 + y,
        256,
        h * 256 + x,
        y,
    );
    assert(version_byte(version, 2) == a);
    assert(version_byte(version, 1) == b);
    assert(version_byte(version, 0) == c);
}

/// Tells what libavcodec is there.
pub fn describe_codec(version: u32, configuration: &str) -> (r: String)
    ensures
        r@ == codec_line(version, configuration@),
{
    let major = text::to_decimal((version / 65536 % 256) as u64);
    let minor = text::to_decimal((version / 256 % 256) as u64);
    let micro = text::to_decimal((version % 256) as u64);
    let mut r = text::concat3("libavcodec version ", major.as_str(), ".");
    r.append(minor.as_str());
    r.append(".");
    r.append(micro.as_str());
    r.append(", configured with ");
    r.append(configuration);
    r
}

} // verus!
