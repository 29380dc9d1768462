use solcli::command::{effective_signer_format, select_keypair_source, Cli, Commands, KeypairSource};
use solcli::errors::CliError;
use solcli::format::Format;
use solcli::moniker::normalize_to_url_if_moniker;

#[test]
fn exactly_one_keypair_source_is_required() {
    let both = select_keypair_source(Some("kp.json".to_string()), Some("[1]".to_string()));
    assert!(matches!(both, Err(CliError::ArgumentError)));
    let neither = select_keypair_source(None, None);
    assert!(matches!(neither, Err(CliError::ArgumentError)));
    match select_keypair_source(Some("kp.json".to_string()), None) {
        Ok(KeypairSource::FromFile(p)) => assert_eq!(p, "kp.json"),
        _ => panic!("path alone must pick the file source"),
    }
    match select_keypair_source(None, Some("[1, 2]".to_string())) {
        Ok(KeypairSource::FromValue(v)) => assert_eq!(v, "[1, 2]"),
        _ => panic!("value alone must pick the raw source"),
    }
}

#[test]
fn signer_format_defaults_to_bytes() {
    assert_eq!(effective_signer_format(None), Format::Bytes);
    assert_eq!(effective_signer_format(Some(Format::Base58)), Format::Base58);
}

#[test]
fn formats_are_each_others_opposite() {
    assert_eq!(Format::Base58.opposite(), Format::Bytes);
    assert_eq!(Format::Bytes.opposite(), Format::Base58);
}

#[test]
fn monikers_expand_to_canonical_endpoints() {
    assert_eq!(normalize_to_url_if_moniker("d"), "https://api.devnet.solana.com");
    assert_eq!(normalize_to_url_if_moniker("devnet"), "https://api.devnet.solana.com");
    assert_eq!(normalize_to_url_if_moniker("m"), "https://api.mainnet-beta.solana.com");
    assert_eq!(normalize_to_url_if_moniker("mainnet-beta"), "https://api.mainnet-beta.solana.com");
    assert_eq!(normalize_to_url_if_moniker("t"), "https://api.testnet.solana.com");
    assert_eq!(normalize_to_url_if_moniker("testnet"), "https://api.testnet.solana.com");
    assert_eq!(normalize_to_url_if_moniker("l"), "http://localhost:8899");
    assert_eq!(normalize_to_url_if_moniker("localhost"), "http://localhost:8899");
}

#[test]
fn other_urls_pass_through_unchanged() {
    assert_eq!(normalize_to_url_if_moniker("https://custom.example"), "https://custom.example");
    assert_eq!(normalize_to_url_if_moniker(""), "");
    assert_eq!(normalize_to_url_if_moniker("dev"), "dev");
}

#[test]
fn a_command_line_carries_one_typed_command() {
    let cli = Cli {
        command: Some(Commands::TransactionSend {
            url: "d".to_string(),
            transaction: "AQID".to_string(),
            signer: None,
            format: None,
        }),
    };
    match cli.command {
        Some(Commands::TransactionSend { url, signer, .. }) => {
            assert_eq!(url, "d");
            assert!(signer.is_none());
        },
        _ => panic!("the command must survive construction"),
    }
}
