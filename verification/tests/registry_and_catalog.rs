use gigaleverage::catalog::{get_data_streams_for_provider, get_providers};
use gigaleverage::registry::LeverageRegistry;

fn looks_like_generated_id(s: &str) -> bool {
    let chars: Vec<char> = s.chars().collect();
    chars.len() == 36
        && chars.iter().enumerate().all(|(i, c)| match i {
            8 | 13 | 18 | 23 => *c == '-',
            _ => c.is_ascii_hexdigit() && !c.is_ascii_uppercase(),
        })
}

#[test]
fn catalog_lists_the_one_provider() {
    let providers = get_providers();
    assert_eq!(providers.len(), 1);
    assert_eq!(providers[0].id, "coingecko");
    assert_eq!(providers[0].name, "CoinGecko");
    assert_eq!(providers[0].logo, "assets/images/coingecko-logo.png");
}

#[test]
fn catalog_streams_are_deterministic() {
    for _ in 0..2 {
        let streams = get_data_streams_for_provider("coingecko");
        assert_eq!(streams.len(), 2);
        assert_eq!(streams[0].id, "btc-price");
        assert_eq!(streams[0].name, "BTC Price");
        assert_eq!(streams[1].id, "eth-price");
        assert_eq!(streams[1].name, "ETH Price");
    }
    for _ in 0..2 {
        assert!(get_data_streams_for_provider("unknown").is_empty());
        assert!(get_data_streams_for_provider("").is_empty());
    }
}

#[test]
fn create_appends() {
    let mut reg = LeverageRegistry::new();
    assert!(reg.list().is_empty());
    reg.create("coingecko", "btc-price", "BTC Price");
    let rows = reg.list();
    assert_eq!(rows.len(), 1);
    assert!(looks_like_generated_id(&rows[0].id));
    assert_eq!(rows[0].provider.id, "coingecko");
    assert_eq!(rows[0].provider.name, "CoinGecko");
    assert_eq!(rows[0].data_stream.id, "btc-price");
    assert_eq!(rows[0].data_stream.name, "BTC Price");
}

#[test]
fn create_accepts_an_unknown_provider() {
    let mut reg = LeverageRegistry::new();
    reg.create("somewhere-else", "x", "X");
    let rows = reg.list();
    assert_eq!(rows.len(), 1);
    assert_eq!(rows[0].provider.id, "somewhere-else");
    assert_eq!(rows[0].provider.name, "");
    assert_eq!(rows[0].data_stream.id, "x");
}

#[test]
fn generated_ids_differ() {
    let mut reg = LeverageRegistry::new();
    reg.create("coingecko", "btc-price", "BTC Price");
    reg.create("coingecko", "eth-price", "ETH Price");
    let rows = reg.list();
    assert_eq!(rows.len(), 2);
    assert_ne!(rows[0].id, rows[1].id);
}

#[test]
fn idempotent_delete() {
    let mut reg = LeverageRegistry::new();
    reg.create("coingecko", "btc-price", "BTC Price");
    reg.create("coingecko", "eth-price", "ETH Price");
    let before: Vec<(String, String, String)> = reg
        .list()
        .iter()
        .map(|l| (l.id.clone(), l.provider.id.clone(), l.data_stream.id.clone()))
        .collect();
    reg.delete("no-such-id");
    let after: Vec<(String, String, String)> = reg
        .list()
        .iter()
        .map(|l| (l.id.clone(), l.provider.id.clone(), l.data_stream.id.clone()))
        .collect();
    assert_eq!(before, after);
}

#[test]
fn update_preserves_identity_and_position() {
    let mut reg = LeverageRegistry::new();
    reg.create("coingecko", "btc-price", "BTC Price");
    reg.create("coingecko", "btc-price", "BTC Price");
    let a_id = reg.list()[0].id.clone();
    let b_id = reg.list()[1].id.clone();
    reg.update(&a_id, "coingecko", "eth-price", "ETH Price");
    let rows = reg.list();
    assert_eq!(rows.len(), 2);
    assert_eq!(rows[0].id, a_id);
    assert_eq!(rows[0].data_stream.id, "eth-price");
    assert_eq!(rows[0].data_stream.name, "ETH Price");
    assert_eq!(rows[0].provider.name, "CoinGecko");
    assert_eq!(rows[1].id, b_id);
    assert_eq!(rows[1].data_stream.id, "btc-price");
}

#[test]
fn update_of_an_absent_id_is_a_noop() {
    let mut reg = LeverageRegistry::new();
    reg.create("coingecko", "btc-price", "BTC Price");
    let id = reg.list()[0].id.clone();
    reg.update("no-such-id", "coingecko", "eth-price", "ETH Price");
    let rows = reg.list();
    assert_eq!(rows.len(), 1);
    assert_eq!(rows[0].id, id);
    assert_eq!(rows[0].data_stream.id, "btc-price");
}

#[test]
fn edit_returns_the_streams_of_the_rows_provider() {
    let mut reg = LeverageRegistry::new();
    reg.create("coingecko", "btc-price", "BTC Price");
    let id = reg.list()[0].id.clone();
    let streams = reg.edit(&id).expect("row exists");
    assert_eq!(streams.len(), 2);
    assert_eq!(streams[0].id, "btc-price");
    assert_eq!(streams[1].id, "eth-price");
    assert!(reg.edit("no-such-id").is_none());
    assert_eq!(reg.list().len(), 1);
}

#[test]
fn end_to_end_create_then_delete() {
    let mut reg = LeverageRegistry::new();
    reg.create("coingecko", "eth-price", "ETH Price");
    assert_eq!(reg.list().len(), 1);
    assert_eq!(reg.list()[0].data_stream.id, "eth-price");
    let id = reg.list()[0].id.clone();
    reg.delete(&id);
    assert!(reg.list().is_empty());
}
