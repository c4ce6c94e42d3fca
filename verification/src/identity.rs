//! Deterministic chart identity: the first 8 bytes of a SHA-256 digest
//! of the `title_artist_creator_version` concatenation, in lower-case
//! hex.

use vstd::prelude::*;
use vstd::utf8::encode_utf8;
use crate::model::Chart;
use crate::text::hex_str;
use sha2::Digest;

verus! {

/// What SHA-256 returns for the given bytes; a function of the bytes
/// alone.
pub uninterp spec fn sha256_of(bytes: Seq<u8>) -> Seq<u8>;

/// Relies on sha2's `Sha256`: the digest is 32 bytes long and depends on
/// the input bytes alone.
#[verifier::external_body]
fn sha256(bytes: &[u8]) -> (r: Vec<u8>)
    ensures
        r@ == sha256_of(bytes@),
        r@.len() == 32,
{
    let digest = sha2::Sha256::digest(bytes);
    digest.to_vec()
}

/// The identity source: the four header fields joined by underscores.
pub open spec fn id_source(
    title: Seq<char>,
    artist: Seq<char>,
    creator: Seq<char>,
    version: Seq<char>,
) -> Seq<char> {
    title + "_"@ + artist + "_"@ + creator + "_"@ + version
}

/// The identity of a chart with the given header fields: 8 digest bytes
/// of the identity source, 16 lower-case hex digits.
pub open spec fn identity_spec(
    title: Seq<char>,
    artist: Seq<char>,
    creator: Seq<char>,
    version: Seq<char>,
) -> Seq<char> {
    hex_str(sha256_of(encode_utf8(id_source(title, artist, creator, version))).take(8))
}

/// The identity of a chart.
pub open spec fn chart_id_spec(c: Chart) -> Seq<char> {
    identity_spec(c.metadata.title@, c.metadata.artist@, c.metadata.creator@, c.metadata.version@)
}

/// Identity is a function of title, artist, creator and version alone:
/// two charts that agree on those four fields share one identity,
/// whatever their notes or timelines hold.
pub proof fn lemma_identity_of_header_only(c1: Chart, c2: Chart)
    requires
        c1.metadata.title@ == c2.metadata.title@,
        c1.metadata.artist@ == c2.metadata.artist@,
        c1.metadata.creator@ == c2.metadata.creator@,
        c1.metadata.version@ == c2.metadata.version@,
    ensures
        chart_id_spec(c1) == chart_id_spec(c2),
{
}

/// The deterministic identity of a chart, as 16 lower-case hex digits.
pub fn generate_chart_id(chart: &Chart) -> (r: String)
    ensures
        r@ == chart_id_spec(*chart),
{
    let mut s = chart.metadata.title.clone();
    s.append("_");
    s.append(chart.metadata.artist.as_str());
    s.append("_");
    s.append(chart.metadata.creator.as_str());
    s.append("_");
    s.append(chart.metadata.version.as_str());
    let bytes = s.as_str().as_bytes_vec();
    let digest = sha256(bytes.as_slice());
    let mut first8: Vec<u8> = Vec::new();
    let mut i: usize = 0;
    while i < 8
        invariant
            i <= 8,
            digest@.len() == 32,
            first8@ == digest@.take(i as int),
        decreases 8 - i,
    {
        first8.push(digest[i]);
        proof {
            assert(digest@.take(i as int + 1) =~= digest@.take(i as int).push(
                digest@[i as int],
            ));
        }
        i = i + 1;
    }
    let hex = crate::text::bytes_to_hex(&first8);
    proof {
        assert(s@ == id_source(
            chart.metadata.title@,
            chart.metadata.artist@,
            chart.metadata.creator@,
            chart.metadata.version@,
        ));
        assert(first8@ == sha256_of(encode_utf8(s@)).take(8));
    }
    hex
}

} // verus!
