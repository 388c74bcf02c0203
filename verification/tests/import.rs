use mydict::codec::{OdictFile, WriteError};
use mydict::dictionary::DictionaryIndex;
use mydict::import::{import_odict, ImportError, Probing};
use mydict::version::Version;

fn entry(term: &str) -> odict::Entry {
    odict::Entry { term: term.to_string(), ..Default::default() }
}

fn dictionary(name: Option<&str>, terms: &[&str]) -> odict::Dictionary {
    odict::Dictionary {
        id: odict::ID::new(),
        name: name.map(|name| name.to_string()),
        entries: terms.iter().map(|term| entry(term)).collect(),
    }
}

fn file_of(dictionary: &odict::Dictionary, version: Version) -> OdictFile {
    let bytes = odict::DictionaryWriter::new().write_to_bytes(dictionary).unwrap();
    let file = odict::DictionaryReader::new().read_from_bytes(&bytes).unwrap();
    OdictFile { version, file }
}

fn unreadable() -> String {
    odict::DictionaryReader::new().read_from_bytes(b"not a dictionary").err().unwrap().to_string()
}

fn parse(file: &odict::DictionaryFile) -> Result<odict::Dictionary, String> {
    file.to_dictionary().map_err(|error| error.to_string())
}

#[test]
fn a_file_url_begins_an_import_of_its_path() {
    let reading = import_odict("file:///home/me/animals.odict").unwrap();
    assert_eq!(reading.path(), "/home/me/animals.odict");
}

#[test]
fn a_file_url_is_decoded() {
    let reading = import_odict("file:///home/me/my%20animals.odict").unwrap();
    assert_eq!(reading.path(), "/home/me/my animals.odict");
    let local = import_odict("file://localhost/home/me/animals.odict").unwrap();
    assert_eq!(local.path(), "/home/me/animals.odict");
}

#[test]
fn the_scheme_is_read_in_any_case() {
    let reading = import_odict("FILE:///home/me/animals.odict").unwrap();
    assert_eq!(reading.path(), "/home/me/animals.odict");
}

#[test]
fn a_network_source_is_unsupported() {
    let source = "https://example.org/animals.odict";
    let refused = import_odict(source).err();
    assert_eq!(refused, Some(ImportError::UnsupportedSource(source.to_string())));
    let ftp = "ftp://example.org/animals.odict";
    assert_eq!(import_odict(ftp).err(), Some(ImportError::UnsupportedSource(ftp.to_string())));
}

#[test]
fn a_source_that_is_no_url_is_unsupported() {
    for source in ["", "animals.odict", "/home/me/animals.odict", "file"] {
        let refused = import_odict(source).err();
        assert_eq!(refused, Some(ImportError::UnsupportedSource(source.to_string())));
    }
}

#[test]
fn a_file_url_on_another_host_is_unsupported() {
    let source = "file://example.org/home/me/animals.odict";
    let refused = import_odict(source).err();
    assert_eq!(refused, Some(ImportError::UnsupportedSource(source.to_string())));
}

#[test]
fn the_target_is_named_after_the_declared_name() {
    let source = dictionary(Some("Animals"), &["cat"]);
    let probing = Probing::name_target(source, "/home/me/zoo.odict").unwrap();
    assert_eq!(probing.file_name(), "Animals.odict");
}

#[test]
fn path_separators_in_the_declared_name_are_replaced() {
    let source = dictionary(Some("en/de \\ fr/"), &["cat"]);
    let probing = Probing::name_target(source, "/home/me/zoo.odict").unwrap();
    assert_eq!(probing.file_name(), "en|de | fr|.odict");
    let plain = dictionary(Some("a|b.c"), &["cat"]);
    assert_eq!(Probing::name_target(plain, "/x.odict").unwrap().file_name(), "a|b.c.odict");
    let empty = dictionary(Some(""), &["cat"]);
    assert_eq!(Probing::name_target(empty, "/x.odict").unwrap().file_name(), ".odict");
}

#[test]
fn an_unnamed_dictionary_is_named_after_its_source_file() {
    let source = dictionary(None, &["cat", "car"]);
    let probing = Probing::name_target(source, "/home/me/zoo.v2.odict").unwrap();
    assert_eq!(probing.file_name(), "zoo.v2.odict");
    let imported = probing.target_probed(false).unwrap().written(Ok(())).unwrap();
    assert_eq!(imported.dictionary.name, Some("zoo.v2".to_string()));
    assert_eq!(imported.dictionary.entries.len(), 2);
    assert_eq!(imported.file_name, "zoo.v2.odict");
}

#[test]
fn a_declared_name_is_kept_as_it_is() {
    let source = dictionary(Some("en/de"), &["cat"]);
    let probing = Probing::name_target(source, "/home/me/zoo.odict").unwrap();
    let imported = probing.target_probed(false).unwrap().written(Ok(())).unwrap();
    assert_eq!(imported.dictionary.name, Some("en/de".to_string()));
    assert_eq!(imported.file_name, "en|de.odict");
}

#[test]
fn an_unnamed_dictionary_from_a_path_without_a_file_name_is_refused() {
    let source = dictionary(None, &["cat"]);
    let refused = Probing::name_target(source, "/").err();
    assert_eq!(refused, Some(ImportError::UnsupportedSource("/".to_string())));
}

#[test]
fn an_unreadable_source_file_is_a_format_error() {
    let reading = import_odict("file:///home/me/animals.odict").unwrap();
    let refused = reading.file_read(Err(unreadable())).err();
    assert_eq!(refused, Some(ImportError::Format(unreadable())));
}

#[test]
fn a_source_file_that_cannot_be_parsed_is_a_format_error() {
    let reading = import_odict("file:///home/me/animals.odict").unwrap();
    let file = file_of(&dictionary(Some("Animals"), &["cat"]), Version::new(2, 8, 0));
    let parsing = reading.file_read(Ok(file)).unwrap();
    let refused = parsing.parsed(Err("Failed to deserialize: broken".to_string())).err();
    assert_eq!(refused, Some(ImportError::Format("Failed to deserialize: broken".to_string())));
}

#[test]
fn a_read_source_file_is_handed_out_to_be_parsed() {
    let reading = import_odict("file:///home/me/animals.odict").unwrap();
    let source = dictionary(Some("Animals"), &["cat", "car"]);
    let parsing = reading.file_read(Ok(file_of(&source, Version::new(2, 8, 0)))).unwrap();
    let parsed = parse(parsing.file()).unwrap();
    assert_eq!(parsed.entries, source.entries);
    assert_eq!(parsed.name, source.name);
}

#[test]
fn a_failure_to_encode_ends_the_import_with_the_report() {
    let source = dictionary(Some("Animals"), &["cat"]);
    let probing = Probing::name_target(source, "/zoo.odict").unwrap();
    let report = WriteError { message: "Failed to serialize: broken".to_string() };
    let refused = probing.encoded(Err(report)).err();
    assert_eq!(refused, Some(ImportError::Write("Failed to serialize: broken".to_string())));
}

#[test]
fn the_encoded_bytes_are_the_bytes_to_write() {
    let source = dictionary(Some("Animals"), &["cat"]);
    let probing = Probing::name_target(source.clone(), "/zoo.odict").unwrap();
    let writing = probing.encoded(Ok(vec![7, 8, 9])).unwrap();
    assert_eq!(writing.bytes(), &[7, 8, 9]);
    assert_eq!(writing.file_name(), "Animals.odict");
    let imported = writing.written(Ok(())).unwrap();
    assert_eq!(imported.dictionary, source);
}

#[test]
fn a_source_file_of_an_old_version_is_refused_with_its_version() {
    let reading = import_odict("file:///home/me/animals.odict").unwrap();
    let file = file_of(&dictionary(Some("Animals"), &["cat"]), Version::new(2, 7, 9));
    let refused = reading.file_read(Ok(file)).err();
    assert_eq!(refused, Some(ImportError::Version(Version::new(2, 7, 9))));
}

#[test]
fn a_taken_target_ends_the_import_before_anything_is_written() {
    let reading = import_odict("file:///home/me/zoo.odict").unwrap();
    let file = file_of(&dictionary(Some("Animals"), &["cat"]), Version::new(2, 8, 0));
    let parsing = reading.file_read(Ok(file)).unwrap();
    let parsed = parse(parsing.file());
    let probing = parsing.parsed(parsed).unwrap();
    assert_eq!(probing.file_name(), "Animals.odict");
    let refused = probing.target_probed(true).err();
    assert_eq!(refused, Some(ImportError::DuplicateTarget("Animals.odict".to_string())));
}

#[test]
fn a_failed_write_ends_the_import_with_the_report() {
    let source = dictionary(Some("Animals"), &["cat"]);
    let writing = Probing::name_target(source, "/zoo.odict").unwrap().target_probed(false).unwrap();
    let refused = writing.written(Err("disk full".to_string())).err();
    assert_eq!(refused, Some(ImportError::Write("disk full".to_string())));
}

#[test]
fn an_import_hands_out_the_bytes_of_the_dictionary_file() {
    let source = dictionary(Some("Animals"), &["cat", "car", "dog"]);
    let writing = Probing::name_target(source.clone(), "/zoo.odict")
        .unwrap()
        .target_probed(false)
        .unwrap();
    assert_eq!(writing.file_name(), "Animals.odict");
    assert_eq!(&writing.bytes()[..5], b"ODICT");
    let file = odict::DictionaryReader::new().read_from_bytes(writing.bytes()).unwrap();
    let stored = file.to_dictionary().unwrap();
    assert_eq!(stored.name, source.name);
    assert_eq!(stored.entries, source.entries);
}

#[test]
fn what_was_imported_loads_from_storage_as_it_was_returned() {
    let reading = import_odict("file:///home/me/zoo.odict").unwrap();
    assert_eq!(reading.path(), "/home/me/zoo.odict");
    let source = dictionary(None, &["cat", "car", "dog", "été"]);
    let parsing = reading.file_read(Ok(file_of(&source, Version::new(2, 9, 1)))).unwrap();
    let parsed = parse(parsing.file());
    let probing = parsing.parsed(parsed).unwrap();
    assert_eq!(probing.file_name(), "zoo.odict");
    let writing = probing.target_probed(false).unwrap();
    let stored = writing.bytes().to_vec();
    let imported = writing.written(Ok(())).unwrap();
    assert_eq!(imported.file_name, "zoo.odict");
    let direct = DictionaryIndex::new(imported.dictionary);

    let file = odict::DictionaryReader::new().read_from_bytes(&stored).unwrap();
    let version = Version::new(file.version.major, file.version.minor, file.version.patch);
    let gated = mydict::codec::read_odict_from_path(Ok(OdictFile { version, file })).unwrap();
    let loaded = DictionaryIndex::load_from_path(parse(&gated.file)).unwrap();

    assert_eq!(loaded.name(), Some("zoo".to_string()));
    assert_eq!(loaded.name(), direct.name());
    assert_eq!(loaded.search(""), direct.search(""));
    assert_eq!(
        loaded.search(""),
        vec!["car".to_string(), "cat".to_string(), "dog".to_string(), "été".to_string()]
    );
    for query in ["c", "ca", "d", "é", "z"] {
        assert_eq!(loaded.search(query), direct.search(query));
    }
    for term in direct.search("") {
        assert_eq!(loaded.get(&term), direct.get(&term));
    }
}
