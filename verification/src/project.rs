use base64::Engine;
use vstd::prelude::*;

use crate::assets::{AssetInput, AssetSource};
use crate::paths::{join_path, spec_join};

verus! {

/// What one chapter's compilation produces: the rendered body and an
/// optional plain-text description.
#[derive(Debug)]
pub struct ChapterArtifact {
    pub description: Option<String>,
    pub content: String,
}

/// The one book-package version this builder understands.
pub fn version_supported(v: &String) -> (r: bool)
    ensures
        r == (v@ == "0.3.1"@),
{
    let want = crate::strutil::string_of("0.3.1");
    v.eq(&want)
}

/// Why a metadata query is rejected.
#[derive(Debug, Clone, Copy, PartialEq, Eq, Structural)]
pub enum MetaQueryError {
    /// The summary document carries more than one item under the label.
    MultipleItems,
}

/// Of the values a metadata query returned: none is fine, one is the answer,
/// several are an error.
pub fn single_query_item<T>(items: Vec<T>) -> (r: Result<Option<T>, MetaQueryError>)
    ensures
        items@.len() == 0 ==> r == Ok::<Option<T>, MetaQueryError>(None),
        items@.len() == 1 ==> r == Ok::<Option<T>, MetaQueryError>(Some(items@[0])),
        items@.len() > 1 ==> r == Err::<Option<T>, MetaQueryError>(MetaQueryError::MultipleItems),
{
    let mut items = items;
    if items.len() > 1 {
        Err(MetaQueryError::MultipleItems)
    } else {
        Ok(items.pop())
    }
}

/// A static asset as the compiled document declares it: a source file path,
/// inline text, or base64-encoded bytes.
#[derive(Debug)]
pub enum RawAssetSource {
    Path(String),
    Text(String),
    Bytes(String),
}

/// A static asset declaration queried from a compiled page.
#[derive(Debug)]
pub struct StaticAsset {
    pub src: RawAssetSource,
    pub dest: String,
    pub asset_type: String,
}

/// What base64's standard-alphabet decoding makes of a string, if anything.
pub uninterp spec fn base64_decode_of(s: Seq<char>) -> Option<Seq<u8>>;

/// Relies on base64's standard-alphabet decode: the result depends on the
/// characters alone, and invalid input is an error.
#[verifier::external_body]
fn decode_base64(s: &String) -> (r: Option<Vec<u8>>)
    ensures
        (match r {
            Some(v) => base64_decode_of(s@) == Some(v@),
            None => base64_decode_of(s@) is None,
        }),
{
    match base64::prelude::BASE64_STANDARD.decode(s.as_bytes()) {
        Ok(v) => Some(v),
        Err(_) => None,
    }
}

/// Turns a declared static asset into a submission input: file paths are
/// resolved against the project root, inline text becomes its bytes, and
/// base64 payloads are decoded (an undecodable payload is rejected).
pub fn convert_static_asset(sa: StaticAsset, root_dir: &String) -> (r: Option<AssetInput>)
    ensures
        (match sa.src {
            RawAssetSource::Path(p) => r matches Some(a) && a.dest@ == sa.dest@ && a.asset_type@
                == sa.asset_type@ && (a.src matches AssetSource::Path(q) && q@ == (
            if crate::paths::spec_is_abs(p@) {
                p@
            } else {
                spec_join(root_dir@, p@)
            })),
            RawAssetSource::Text(t) => r matches Some(a) && a.dest@ == sa.dest@ && a.asset_type@
                == sa.asset_type@ && (a.src matches AssetSource::Bytes(b) && b@
                == vstd::utf8::encode_utf8(t@)),
            RawAssetSource::Bytes(b64) => (match base64_decode_of(b64@) {
                Some(bytes) => r matches Some(a) && a.dest@ == sa.dest@ && a.asset_type@
                    == sa.asset_type@ && (a.src matches AssetSource::Bytes(b) && b@ == bytes),
                None => r is None,
            }),
        }),
{
    let StaticAsset { src, dest, asset_type } = sa;
    match src {
        RawAssetSource::Path(p) => {
            let resolved = if crate::paths::is_absolute(p.as_str()) {
                p
            } else {
                join_path(root_dir.as_str(), p.as_str())
            };
            Some(AssetInput { src: AssetSource::Path(resolved), dest, asset_type })
        },
        RawAssetSource::Text(t) => {
            let bytes = t.as_str().as_bytes_vec();
            Some(AssetInput { src: AssetSource::Bytes(bytes), dest, asset_type })
        },
        RawAssetSource::Bytes(b64) => {
            match decode_base64(&b64) {
                Some(bytes) => Some(
                    AssetInput { src: AssetSource::Bytes(bytes), dest, asset_type },
                ),
                None => None,
            }
        },
    }
}

} // verus!
