use contract_source_metadata::repository_link_in;
use contract_source_metadata::ContractSourceMetadata;
use contract_source_metadata::TContractSourceMetadata;

const MANIFEST: &str = "[package]\nname = \"contract-source-metadata\"\nversion = \"0.1.0\"\nrepository = \"https://github.com/iamochuko/contract-source-metadata\"\n\n[dependencies]\n";

/// A contract that keeps its source metadata as a record.
#[allow(dead_code)]
struct Contract {
    name: String,
    age: u8,
}

impl Contract {
    fn source_record(&self) -> ContractSourceMetadata {
        let repo_link = repository_link_in(MANIFEST);
        ContractSourceMetadata {
            version: String::from("0.0.1"),
            link: repo_link,
        }
    }
}

#[test]
fn source_metadata() {
    let contract = Contract {
        name: "David".to_string(),
        age: 34,
    };

    let expect = contract.source_record().contract_source_metadata().link;
    assert_eq!(expect, repository_link_in(MANIFEST))
}

#[test]
fn source_metadata_link_is_the_declared_one() {
    let contract = Contract {
        name: "David".to_string(),
        age: 34,
    };
    let record = contract.source_record();
    assert_eq!(
        record.contract_source_metadata().link,
        "https://github.com/iamochuko/contract-source-metadata"
    );
    assert_eq!(record.contract_source_metadata().version, "0.0.1");
}

#[test]
fn source_metadata_twice_gives_equal_records() {
    let record = ContractSourceMetadata::new(
        String::from("0.0.1"),
        String::from("https://github.com/iamochuko/contract-source-metadata"),
    );
    let first = record.contract_source_metadata();
    let second = record.contract_source_metadata();
    assert_eq!(first, second);
    assert_eq!(first.version, second.version);
    assert_eq!(first.link, second.link);
    assert_eq!(first, record);
}

#[test]
fn record_keeps_its_fields() {
    let record = ContractSourceMetadata::new(
        String::from("0.0.1"),
        String::from("https://github.com/iamochuko/contract-source-metadata"),
    );
    assert_eq!(record.version(), "0.0.1");
    assert_eq!(
        record.link(),
        "https://github.com/iamochuko/contract-source-metadata"
    );
    assert_eq!(record.version, "0.0.1");
    assert_eq!(
        record.link,
        "https://github.com/iamochuko/contract-source-metadata"
    );
}

#[test]
fn records_differ_by_either_field() {
    let a = ContractSourceMetadata::new(String::from("0.0.1"), String::from("x"));
    let b = ContractSourceMetadata::new(String::from("0.0.2"), String::from("x"));
    let c = ContractSourceMetadata::new(String::from("0.0.1"), String::from("y"));
    let d = ContractSourceMetadata::new(String::from("0.0.1"), String::from("x"));
    assert_ne!(a, b);
    assert_ne!(a, c);
    assert_eq!(a, d);
}
