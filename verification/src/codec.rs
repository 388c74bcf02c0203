//! The boundary to the codec of the dictionary file format: what this
//! library takes on trust of it, and the rules on what reading, parsing and
//! encoding gave.

use vstd::bytes::spec_u64_to_le_bytes;
use vstd::prelude::*;

use crate::trie::texts;
use crate::version::{compatible, Version};

verus! {

/// A dictionary as the codec holds it: the entries by their terms, and the
/// name that the dictionary declares.
#[verifier::external_type_specification]
#[verifier::external_body]
pub struct ExDictionary(odict::Dictionary);

/// A dictionary file that the codec has read and not yet parsed.
#[verifier::external_type_specification]
#[verifier::external_body]
pub struct ExDictionaryFile(odict::DictionaryFile);

/// One entry of a dictionary: its term and all that is said of it.
#[verifier::external_type_specification]
#[verifier::external_body]
pub struct ExEntry(odict::Entry);

/// The entries that a dictionary of the codec holds, each under its term:
/// under a term stands the entry that a lookup of the term finds.
pub uninterp spec fn dictionary_entries(dictionary: odict::Dictionary) -> Map<
    Seq<char>,
    odict::Entry,
>;

/// The name that a dictionary of the codec declares, if it declares one.
pub uninterp spec fn dictionary_name(dictionary: odict::Dictionary) -> Option<Seq<char>>;

/// The text of a string that may be absent.
pub open spec fn option_text(text: Option<String>) -> Option<Seq<char>> {
    match text {
        Some(text) => Some(text@),
        None => None,
    }
}

/// The terms of the entries of an `odict::Dictionary`, read from its field
/// `entries`: each term under which an entry is held is handed out, and
/// nothing else.
#[verifier::external_body]
pub(crate) fn entry_terms(dictionary: &odict::Dictionary) -> (terms: Vec<String>)
    ensures
        texts(terms@).to_set() == dictionary_entries(*dictionary).dom(),
{
    dictionary.entries.iter().map(|entry| entry.term.clone()).collect()
}

/// `HashSet::get` on the field `entries` of an `odict::Dictionary`, whose
/// entries hash and borrow as their terms: the entry held under `term`, or
/// nothing where no entry has that term.
#[verifier::external_body]
pub(crate) fn find_entry<'a>(dictionary: &'a odict::Dictionary, term: &str) -> (entry: Option<
    &'a odict::Entry,
>)
    ensures
        entry is Some <==> dictionary_entries(*dictionary).contains_key(term@),
        entry matches Some(found) ==> *found == dictionary_entries(*dictionary)[term@],
{
    dictionary.entries.get(term)
}

/// `Clone::clone` of `odict::Dictionary`, which is derived: the copy holds
/// the same entries under the same terms, and declares the same name.
pub assume_specification[ <odict::Dictionary as Clone>::clone ](
    dictionary: &odict::Dictionary,
) -> (copy: odict::Dictionary)
    ensures
        dictionary_entries(copy) == dictionary_entries(*dictionary),
        dictionary_name(copy) == dictionary_name(*dictionary),
;

/// The field `name` of an `odict::Dictionary`.
#[verifier::external_body]
pub(crate) fn declared_name(dictionary: &odict::Dictionary) -> (name: Option<String>)
    ensures
        option_text(name) == dictionary_name(*dictionary),
{
    dictionary.name.clone()
}

/// Sets the field `name` of an `odict::Dictionary`; its entries stay.
#[verifier::external_body]
pub(crate) fn set_declared_name(dictionary: &mut odict::Dictionary, name: String)
    ensures
        dictionary_name(*final(dictionary)) == Some(name@),
        dictionary_entries(*final(dictionary)) == dictionary_entries(*old(dictionary)),
{
    dictionary.name = Some(name);
}

/// The five bytes that every dictionary file begins with: `ODICT`.
pub open spec fn file_signature() -> Seq<u8> {
    seq![79u8, 68u8, 73u8, 67u8, 84u8]
}

/// The bytes of a dictionary file with the given version text and content:
/// the signature, the length of the version text in eight bytes, lowest
/// first, the version text, the length of the content in eight bytes, lowest
/// first, and the content.
pub open spec fn file_layout(version: Seq<u8>, content: Seq<u8>) -> Seq<u8> {
    file_signature() + spec_u64_to_le_bytes(version.len() as u64) + version
        + spec_u64_to_le_bytes(content.len() as u64) + content
}

/// `bytes` are laid out as a dictionary file, with some version text and
/// some content.
pub open spec fn laid_out_as_file(bytes: Seq<u8>) -> bool {
    exists|version: Seq<u8>, content: Seq<u8>|
        version.len() <= u64::MAX && content.len() <= u64::MAX && bytes == #[trigger] file_layout(
            version,
            content,
        )
}

/// `DictionaryWriter::write_to_bytes_with_opts` of odict, with compression
/// options of the given quality and window size. Where it succeeds, what
/// comes back is laid out as a dictionary file: the writer joins the
/// signature, the length of its version text, the version text, the length
/// of the compressed entries, and the compressed entries. Nothing is claimed
/// of the version text and the content themselves, nor of when it succeeds.
/// A failure is handed out as the text of the codec's error.
#[verifier::external_body]
pub(crate) fn dictionary_to_bytes(
    dictionary: &odict::Dictionary,
    quality: u32,
    window_size: u32,
) -> (encoded: Result<Vec<u8>, String>)
    ensures
        encoded matches Ok(bytes) ==> laid_out_as_file(bytes@),
{
    let compress = odict::CompressOptions::default().quality(quality).window_size(window_size);
    let options = odict::io::DictionaryWriterOptions::default().compression(compress);
    match odict::DictionaryWriter::new().write_to_bytes_with_opts(dictionary, options) {
        Ok(bytes) => Ok(bytes),
        Err(error) => Err(error.to_string()),
    }
}

/// Why a dictionary file was not loaded.
#[derive(Debug, Clone, PartialEq, Eq)]
pub enum LoadError {
    /// The file could not be read, or is no dictionary in this format. Holds
    /// what was reported of the failure.
    Format(String),
    /// The file declares this version, which is older than the oldest one
    /// that is read.
    Version(Version),
}

/// A dictionary could not be encoded for writing. Holds the text of what
/// the codec reported.
#[derive(Debug, Clone, PartialEq, Eq)]
pub struct WriteError {
    pub message: String,
}

/// Quality of the compression of written dictionary files.
pub const COMPRESSION_QUALITY: u32 = 8;

/// Window size of the compression of written dictionary files, as the
/// exponent of a power of two.
pub const COMPRESSION_WINDOW: u32 = 22;

/// A dictionary file as read: the version that it declares, and the file as
/// the codec holds it, for the caller to parse.
pub struct OdictFile {
    pub version: Version,
    pub file: odict::DictionaryFile,
}

/// What a step of reading or parsing gave, with the report of its failure
/// as a format error.
pub fn or_format_error<T>(outcome: Result<T, String>) -> (mapped: Result<T, LoadError>)
    ensures
        match outcome {
            Ok(value) => mapped == Ok::<T, LoadError>(value),
            Err(report) => mapped == Err::<T, LoadError>(LoadError::Format(report)),
        },
{
    match outcome {
        Ok(value) => Ok(value),
        Err(report) => Err(LoadError::Format(report)),
    }
}

/// Whether `file` declares a version that is read.
#[must_use]
pub fn is_odict_file_compatible(file: &OdictFile) -> (yes: bool)
    ensures
        yes == compatible(file.version),
{
    file.version.is_compatible()
}

/// What reading a dictionary file gave: the file, or the format error that
/// holds the report of the failure to read it.
pub fn read_odict_file_from_path(read: Result<OdictFile, String>) -> (file: Result<
    OdictFile,
    LoadError,
>)
    ensures
        match read {
            Ok(value) => file == Ok::<OdictFile, LoadError>(value),
            Err(report) => file == Err::<OdictFile, LoadError>(LoadError::Format(report)),
        },
{
    or_format_error(read)
}

/// The file whose dictionary may be parsed, from what reading gave. A file
/// that could not be read is refused as a format error, and one that
/// declares too old a version is refused with its version: neither is to be
/// parsed. Any other file is handed on as it is, and the caller parses it.
pub fn read_odict_from_path(read: Result<OdictFile, String>) -> (gated: Result<
    OdictFile,
    LoadError,
>)
    ensures
        match read {
            Err(report) => gated == Err::<OdictFile, LoadError>(LoadError::Format(report)),
            Ok(file) => if compatible(file.version) {
                gated == Ok::<OdictFile, LoadError>(file)
            } else {
                gated == Err::<OdictFile, LoadError>(LoadError::Version(file.version))
            },
        },
{
    let file = match read_odict_file_from_path(read) {
        Ok(file) => file,
        Err(error) => {
            return Err(error);
        },
    };
    if !is_odict_file_compatible(&file) {
        return Err(LoadError::Version(file.version));
    }
    Ok(file)
}

/// What encoding a dictionary gave, with the report of its failure as a
/// write error.
pub fn or_write_error(outcome: Result<Vec<u8>, String>) -> (mapped: Result<Vec<u8>, WriteError>)
    ensures
        match outcome {
            Ok(bytes) => mapped == Ok::<Vec<u8>, WriteError>(bytes),
            Err(report) => mapped matches Err(error) && error.message == report,
        },
{
    match outcome {
        Ok(bytes) => Ok(bytes),
        Err(report) => Err(WriteError { message: report }),
    }
}

/// The bytes of the dictionary file that holds `dictionary`, for the caller
/// to write where the file belongs: what the codec's writer gives for the
/// library's compression settings, laid out as a dictionary file. Whether
/// the dictionary can be encoded is the codec's to say.
pub fn write_odict_to_path(dictionary: &odict::Dictionary) -> (bytes: Result<
    Vec<u8>,
    WriteError,
>)
    ensures
        bytes matches Ok(encoded) ==> laid_out_as_file(encoded@),
{
    or_write_error(dictionary_to_bytes(dictionary, COMPRESSION_QUALITY, COMPRESSION_WINDOW))
}

} // verus!
