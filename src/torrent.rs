use vstd::prelude::*;
use crate::entry::Schema;

verus! {

/// What the daemon is asked to add: a source it resolves itself, or the
/// content of a metainfo file, with the directory to place it in.
#[derive(Clone, Debug, PartialEq, Eq)]
pub enum Torrent {
    File { filename: String, download_dir: String },
    Metainfo { metainfo: String, download_dir: String },
}

/// Whether `url::Url::parse` accepts the text as an absolute URL.
pub uninterp spec fn url_parses(s: Seq<char>) -> bool;

/// The standard, padded base64 text of the bytes `b`.
pub uninterp spec fn base64_standard(b: Seq<u8>) -> Seq<char>;

/// The largest payload whose base64 length is still a `usize`.
pub const MAX_PAYLOAD: usize = usize::MAX / 4 * 3 - 3;

/// Relies on `url::Url::parse`: whether it returns `Ok` depends on the text
/// alone.
#[verifier::external_body]
fn parses_as_url(s: &str) -> (r: bool)
    ensures
        r == url_parses(s@),
{
    url::Url::parse(s).is_ok()
}

/// Relies on `base64::Engine::encode` with the standard engine of
/// `base64::prelude`, which panics only where the encoded length overflows a
/// `usize`.
#[verifier::external_body]
fn encode_base64(b: &[u8]) -> (r: String)
    requires
        b@.len() <= MAX_PAYLOAD,
    ensures
        r@ == base64_standard(b@),
{
    base64::Engine::encode(&base64::prelude::BASE64_STANDARD, b)
}

/// Whether `source` is an absolute URL, and so is handed to the daemon as it
/// stands without looking for a local file of that name.
pub fn is_url(source: &str) -> (r: bool)
    ensures
        r == url_parses(source@),
{
    parses_as_url(source)
}

impl Torrent {
    /// The request for `job`, given whether its source is a URL and, where
    /// it is not, the encoded content of the local file it names if that
    /// file could be read.
    pub fn from_parts(job: Schema, source_is_url: bool, encoded: Option<String>) -> (r: Torrent)
        ensures
            source_is_url || encoded is None ==> r == (Torrent::File {
                filename: job.filename,
                download_dir: job.download_dir,
            }),
            !source_is_url && encoded is Some ==> r == (Torrent::Metainfo {
                metainfo: encoded->0,
                download_dir: job.download_dir,
            }),
    {
        if source_is_url {
            return Torrent::File { filename: job.filename, download_dir: job.download_dir };
        }
        match encoded {
            Some(metainfo) => Torrent::Metainfo { metainfo, download_dir: job.download_dir },
            None => Torrent::File { filename: job.filename, download_dir: job.download_dir },
        }
    }

    /// The request for `job`. A URL is passed on as it stands; otherwise
    /// `contents` holds the bytes of the local file the source names, where
    /// that file could be read, and they are sent base64-encoded; a source
    /// that is neither is passed on as it stands too.
    pub fn classify(job: Schema, contents: Option<Vec<u8>>) -> (r: Torrent)
        requires
            contents is Some ==> contents->0@.len() <= MAX_PAYLOAD,
        ensures
            url_parses(job.filename@) || contents is None ==> r == (Torrent::File {
                filename: job.filename,
                download_dir: job.download_dir,
            }),
            !url_parses(job.filename@) && contents is Some ==> r == (Torrent::Metainfo {
                metainfo: r->metainfo,
                download_dir: job.download_dir,
            }) && r->metainfo@ == base64_standard(contents->0@),
    {
        let source_is_url = is_url(job.filename.as_str());
        let encoded = if source_is_url {
            None
        } else {
            match &contents {
                Some(bytes) => Some(encode_base64(bytes.as_slice())),
                None => None,
            }
        };
        Torrent::from_parts(job, source_is_url, encoded)
    }
}

} // verus!
