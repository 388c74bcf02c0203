//! Bringing a dictionary file from outside into managed storage, step by
//! step: the caller reads, parses, probes and writes, and each step here
//! decides from what the caller found.

use vstd::prelude::*;
use vstd::string::StringExecFns;

use crate::codec::{
    declared_name, dictionary_entries, dictionary_name, laid_out_as_file, option_text,
    read_odict_from_path, set_declared_name, write_odict_to_path, LoadError, OdictFile,
    WriteError,
};
use crate::lazydict::{file_stem, path_file_stem};
use crate::version::{compatible, Version};

verus! {

/// Why an import was given up.
#[derive(Debug, Clone, PartialEq, Eq)]
pub enum ImportError {
    /// The source is no reference to a local file. Holds the source.
    UnsupportedSource(String),
    /// The source file could not be read, or is no dictionary in this format.
    Format(String),
    /// The source file declares this version, which is too old.
    Version(Version),
    /// Managed storage already holds a file of this name.
    DuplicateTarget(String),
    /// The dictionary could not be written into managed storage.
    Write(String),
}

/// The scheme of the URL with this text, lower-cased; nothing where the
/// text is no URL.
pub uninterp spec fn url_scheme(url: Seq<char>) -> Option<Seq<char>>;

/// The path of the local file that the URL with this text stands for, on
/// the platform that the library is built for; nothing where the text is no
/// URL or the URL names no such path.
pub uninterp spec fn url_file_path(url: Seq<char>) -> Option<Seq<char>>;

/// `Url::scheme` of the url crate, on the URL that `Url::parse` makes of the
/// text.
#[verifier::external_body]
fn scheme_of(url: &str) -> (scheme: Option<String>)
    ensures
        option_text(scheme) == url_scheme(url@),
{
    Some(url::Url::parse(url).ok()?.scheme().to_owned())
}

/// `Url::to_file_path` of the url crate, on the URL that `Url::parse` makes
/// of the text; the path is handed out as text.
#[verifier::external_body]
fn file_path_of(url: &str) -> (path: Option<String>)
    ensures
        option_text(path) == url_file_path(url@),
{
    url::Url::parse(url).ok()?.to_file_path().ok()?.into_os_string().into_string().ok()
}

/// `text` with each occurrence of `first` or `second` replaced by `with`.
pub open spec fn replaced(text: Seq<char>, first: char, second: char, with: Seq<char>) -> Seq<
    char,
>
    decreases text.len(),
{
    if text.len() == 0 {
        Seq::empty()
    } else if text[0] == first || text[0] == second {
        with + replaced(text.drop_first(), first, second, with)
    } else {
        seq![text[0]] + replaced(text.drop_first(), first, second, with)
    }
}

/// `str::replace` of std with a pattern of two characters: each occurrence
/// of either becomes `with`, and everything else stays.
#[verifier::external_body]
fn replace_either(text: &str, first: char, second: char, with: &str) -> (changed: String)
    ensures
        changed@ == replaced(text@, first, second, with@),
{
    text.replace([first, second], with)
}

/// The name of the file that holds a dictionary named `name`: the name with
/// its path separators replaced, and the extension of dictionary files.
pub open spec fn file_name_for(name: Seq<char>) -> Seq<char> {
    replaced(name, '/', '\\', "|"@) + ".odict"@
}

/// The local file that `source` refers to, if it refers to one.
pub open spec fn source_path(source: Seq<char>) -> Option<Seq<char>> {
    if url_scheme(source) == Some("file"@) {
        url_file_path(source)
    } else {
        None
    }
}

/// How the target of `dictionary`, which was read from `source_path`, is
/// named: after the name that the dictionary declares or, where it declares
/// none, after the stem of the source file's name, which then becomes the
/// dictionary's name. The entries stay as they are.
pub open spec fn names_target(
    next: Result<Probing, ImportError>,
    dictionary: odict::Dictionary,
    source_path: Seq<char>,
) -> bool {
    match dictionary_name(dictionary) {
        Some(name) => {
            &&& next matches Ok(probing)
            &&& probing.file_name_text() == file_name_for(name)
            &&& probing.dictionary() == dictionary
        },
        None => match path_file_stem(source_path) {
            Some(stem) => {
                &&& next matches Ok(probing)
                &&& probing.file_name_text() == stem + ".odict"@
                &&& dictionary_name(probing.dictionary()) == Some(stem)
                &&& dictionary_entries(probing.dictionary()) == dictionary_entries(dictionary)
            },
            None => next matches Err(ImportError::UnsupportedSource(refused)) && refused@
                == source_path,
        },
    }
}

/// An import that waits for its source file to be read.
#[derive(Debug)]
pub struct Reading {
    path: String,
}

/// An import whose source file was read and may be parsed, and that waits
/// for the outcome of parsing it.
pub struct Parsing {
    path: String,
    file: odict::DictionaryFile,
}

/// An import that waits to learn whether its target is taken.
#[derive(Debug)]
pub struct Probing {
    dictionary: odict::Dictionary,
    file_name: String,
}

/// An import that waits for its target to be written.
#[derive(Debug)]
pub struct Writing {
    dictionary: odict::Dictionary,
    file_name: String,
    bytes: Vec<u8>,
}

/// What an import brings: the dictionary, ready to be indexed, and the name
/// of its file in managed storage.
#[derive(Debug)]
pub struct Imported {
    pub dictionary: odict::Dictionary,
    pub file_name: String,
}

/// Begins the import of the dictionary file that `source` refers to. The
/// source has to be the URL of a local file; the caller then reads the file
/// at the path of what is returned.
pub fn import_odict(source: &str) -> (begun: Result<Reading, ImportError>)
    ensures
        match source_path(source@) {
            Some(path) => begun matches Ok(reading) && reading.path_text() == path,
            None => begun matches Err(ImportError::UnsupportedSource(refused)) && refused@
                == source@,
        },
{
    let local = match scheme_of(source) {
        Some(scheme) => scheme == "file".to_owned(),
        None => false,
    };
    if local {
        if let Some(path) = file_path_of(source) {
            return Ok(Reading { path });
        }
    }
    Err(ImportError::UnsupportedSource(source.to_owned()))
}

impl Reading {
    /// The text of the path of the source file.
    pub closed spec fn path_text(&self) -> Seq<char> {
        self.path@
    }

    /// The path of the source file, which the caller is to read.
    #[must_use]
    pub fn path(&self) -> (path: &str)
        ensures
            path@ == self.path_text(),
    {
        self.path.as_str()
    }

    /// Takes what reading the source file gave. A file that could not be
    /// read, or that declares too old a version, ends the import and is not
    /// to be parsed; any other file the caller is to parse next.
    pub fn file_read(self, read: Result<OdictFile, String>) -> (next: Result<
        Parsing,
        ImportError,
    >)
        ensures
            match read {
                Err(report) => next matches Err(error) && error == ImportError::Format(report),
                Ok(file) => if compatible(file.version) {
                    &&& next matches Ok(parsing)
                    &&& parsing.path_text() == self.path_text()
                    &&& parsing.source() == file.file
                } else {
                    next matches Err(error) && error == ImportError::Version(file.version)
                },
            },
    {
        match read_odict_from_path(read) {
            Ok(file) => Ok(Parsing { path: self.path, file: file.file }),
            Err(LoadError::Format(report)) => Err(ImportError::Format(report)),
            Err(LoadError::Version(version)) => Err(ImportError::Version(version)),
        }
    }
}

impl Parsing {
    /// The text of the path of the source file.
    pub closed spec fn path_text(&self) -> Seq<char> {
        self.path@
    }

    /// The source file as the codec holds it.
    pub closed spec fn source(&self) -> odict::DictionaryFile {
        self.file
    }

    /// The source file, which the caller is to parse.
    #[must_use]
    pub fn file(&self) -> (file: &odict::DictionaryFile)
        ensures
            *file == self.source(),
    {
        &self.file
    }

    /// Takes what parsing the source file gave. A file that could not be
    /// parsed ends the import with the report of the failure; else the
    /// target is named after the dictionary.
    pub fn parsed(self, outcome: Result<odict::Dictionary, String>) -> (next: Result<
        Probing,
        ImportError,
    >)
        ensures
            match outcome {
                Ok(dictionary) => names_target(next, dictionary, self.path_text()),
                Err(report) => next matches Err(error) && error == ImportError::Format(report),
            },
    {
        match outcome {
            Ok(dictionary) => Probing::name_target(dictionary, self.path.as_str()),
            Err(report) => Err(ImportError::Format(report)),
        }
    }
}

impl Probing {
    /// The dictionary that is being imported.
    pub closed spec fn dictionary(&self) -> odict::Dictionary {
        self.dictionary
    }

    /// The text of the name of the target file.
    pub closed spec fn file_name_text(&self) -> Seq<char> {
        self.file_name@
    }

    /// Names the target of `dictionary`, which was read from `source_path`:
    /// after the name that the dictionary declares or, where it declares
    /// none, after the stem of the source file's name, which then becomes
    /// the dictionary's name. The entries stay as they are.
    pub fn name_target(dictionary: odict::Dictionary, source_path: &str) -> (next: Result<
        Probing,
        ImportError,
    >)
        ensures
            names_target(next, dictionary, source_path@),
    {
        let mut dictionary = dictionary;
        match declared_name(&dictionary) {
            Some(name) => {
                let mut file_name = replace_either(name.as_str(), '/', '\\', "|");
                file_name.append(".odict");
                Ok(Probing { dictionary, file_name })
            },
            None => match file_stem(source_path) {
                Some(stem) => {
                    let mut file_name = stem.clone();
                    file_name.append(".odict");
                    set_declared_name(&mut dictionary, stem);
                    Ok(Probing { dictionary, file_name })
                },
                None => Err(ImportError::UnsupportedSource(source_path.to_owned())),
            },
        }
    }

    /// The name of the target file, which the caller is to look for in
    /// managed storage.
    #[must_use]
    pub fn file_name(&self) -> (name: &str)
        ensures
            name@ == self.file_name_text(),
    {
        self.file_name.as_str()
    }

    /// Takes whether managed storage holds a file of the target's name. A
    /// target that is taken ends the import, and nothing is to be written.
    /// For a free target the dictionary is encoded: the caller is to write
    /// the bytes of what is returned, which are laid out as a dictionary
    /// file, or the import ends because the codec could not encode.
    pub fn target_probed(self, taken: bool) -> (next: Result<Writing, ImportError>)
        ensures
            if taken {
                next matches Err(ImportError::DuplicateTarget(name)) && name@
                    == self.file_name_text()
            } else {
                match next {
                    Ok(writing) => {
                        &&& writing.dictionary() == self.dictionary()
                        &&& writing.file_name_text() == self.file_name_text()
                        &&& laid_out_as_file(writing.content())
                    },
                    Err(error) => error is Write,
                }
            },
    {
        if taken {
            return Err(ImportError::DuplicateTarget(self.file_name));
        }
        let outcome = write_odict_to_path(&self.dictionary);
        self.encoded(outcome)
    }

    /// Takes what encoding the dictionary gave: the caller is to write
    /// exactly these bytes, or the import ends with the report of the
    /// failure to encode.
    pub fn encoded(self, outcome: Result<Vec<u8>, WriteError>) -> (next: Result<
        Writing,
        ImportError,
    >)
        ensures
            match outcome {
                Ok(bytes) => {
                    &&& next matches Ok(writing)
                    &&& writing.dictionary() == self.dictionary()
                    &&& writing.file_name_text() == self.file_name_text()
                    &&& writing.content() == bytes@
                },
                Err(error) => next matches Err(ImportError::Write(report)) && report
                    == error.message,
            },
    {
        match outcome {
            Ok(bytes) => Ok(
                Writing { dictionary: self.dictionary, file_name: self.file_name, bytes },
            ),
            Err(error) => Err(ImportError::Write(error.message)),
        }
    }
}

impl Writing {
    /// The dictionary that is being imported.
    pub closed spec fn dictionary(&self) -> odict::Dictionary {
        self.dictionary
    }

    /// The text of the name of the target file.
    pub closed spec fn file_name_text(&self) -> Seq<char> {
        self.file_name@
    }

    /// The bytes of the target file.
    pub closed spec fn content(&self) -> Seq<u8> {
        self.bytes@
    }

    /// The name of the target file.
    #[must_use]
    pub fn file_name(&self) -> (name: &str)
        ensures
            name@ == self.file_name_text(),
    {
        self.file_name.as_str()
    }

    /// The bytes that the caller is to write to the target file.
    #[must_use]
    pub fn bytes(&self) -> (bytes: &[u8])
        ensures
            bytes@ == self.content(),
    {
        self.bytes.as_slice()
    }

    /// Takes how writing the target went: the import is done, or it ends
    /// with what the caller reports.
    pub fn written(self, outcome: Result<(), String>) -> (done: Result<Imported, ImportError>)
        ensures
            match outcome {
                Ok(_) => done matches Ok(imported) && imported.dictionary == self.dictionary()
                    && imported.file_name@ == self.file_name_text(),
                Err(report) => done matches Err(ImportError::Write(text)) && text == report,
            },
    {
        match outcome {
            Ok(_) => Ok(Imported { dictionary: self.dictionary, file_name: self.file_name }),
            Err(report) => Err(ImportError::Write(report)),
        }
    }
}

} // verus!
