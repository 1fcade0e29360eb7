//! The static provider catalog: which market-data providers exist and which
//! data streams each of them offers. Lookups are pure and deterministic;
//! an unknown provider id is a normal case that yields an empty answer.

use vstd::prelude::*;
use crate::strutil::str_eq;

verus! {

/// One market-data source as shown to the user: identifier, display name,
/// and the path of its logo asset.
pub struct Provider {
    pub id: String,
    pub name: String,
    pub logo: String,
}

/// One metric a provider offers, such as a price series.
pub struct DataStream {
    pub id: String,
    pub name: String,
}

/// Mathematical image of a `Provider`.
pub ghost struct ProviderView {
    pub id: Seq<char>,
    pub name: Seq<char>,
    pub logo: Seq<char>,
}

/// Mathematical image of a `DataStream`.
pub ghost struct DataStreamView {
    pub id: Seq<char>,
    pub name: Seq<char>,
}

impl View for Provider {
    type V = ProviderView;

    open spec fn view(&self) -> ProviderView {
        ProviderView { id: self.id@, name: self.name@, logo: self.logo@ }
    }
}

impl View for DataStream {
    type V = DataStreamView;

    open spec fn view(&self) -> DataStreamView {
        DataStreamView { id: self.id@, name: self.name@ }
    }
}

/// The images of a sequence of providers.
pub open spec fn providers_view(s: Seq<Provider>) -> Seq<ProviderView> {
    s.map_values(|p: Provider| p@)
}

/// The images of a sequence of data streams.
pub open spec fn streams_view(s: Seq<DataStream>) -> Seq<DataStreamView> {
    s.map_values(|d: DataStream| d@)
}

/// The catalog's fixed provider list.
pub open spec fn catalog_providers() -> Seq<ProviderView> {
    seq![
        ProviderView {
            id: "coingecko"@,
            name: "CoinGecko"@,
            logo: "assets/images/coingecko-logo.png"@,
        },
    ]
}

/// The catalog's data streams for a provider id: the fixed two-entry list for
/// the one known provider, and the empty sequence for any other id.
pub open spec fn catalog_streams(provider_id: Seq<char>) -> Seq<DataStreamView> {
    if provider_id == "coingecko"@ {
        seq![
            DataStreamView { id: "btc-price"@, name: "BTC Price"@ },
            DataStreamView { id: "eth-price"@, name: "ETH Price"@ },
        ]
    } else {
        Seq::empty()
    }
}

/// The display metadata a registry entry carries for a provider id: the
/// catalog entry when the id is known, and otherwise the id with empty
/// display fields (the caller is trusted to offer only known ids).
pub open spec fn resolved_provider(provider_id: Seq<char>) -> ProviderView {
    if provider_id == "coingecko"@ {
        catalog_providers()[0]
    } else {
        ProviderView { id: provider_id, name: Seq::empty(), logo: Seq::empty() }
    }
}

/// The ordered list of all providers the catalog knows.
pub fn get_providers() -> (r: Vec<Provider>)
    ensures
        providers_view(r@) == catalog_providers(),
{
    let mut v: Vec<Provider> = Vec::new();
    v.push(Provider {
        id: String::from_str("coingecko"),
        name: String::from_str("CoinGecko"),
        logo: String::from_str("assets/images/coingecko-logo.png"),
    });
    proof {
        assert(providers_view(v@) =~= catalog_providers());
    }
    v
}

/// The ordered list of data streams offered under a provider id; empty for an
/// id the catalog does not know. The answer is a function of the id alone.
pub fn get_data_streams_for_provider(provider_id: &str) -> (r: Vec<DataStream>)
    ensures
        streams_view(r@) == catalog_streams(provider_id@),
{
    let mut v: Vec<DataStream> = Vec::new();
    if str_eq(provider_id, "coingecko") {
        v.push(DataStream { id: String::from_str("btc-price"), name: String::from_str("BTC Price") });
        v.push(DataStream { id: String::from_str("eth-price"), name: String::from_str("ETH Price") });
    }
    proof {
        assert(streams_view(v@) =~= catalog_streams(provider_id@));
    }
    v
}

/// The provider record a registry entry stores for a provider id, resolved
/// against the catalog as `resolved_provider` describes.
pub fn resolve_provider(provider_id: &str) -> (r: Provider)
    ensures
        r@ == resolved_provider(provider_id@),
{
    if str_eq(provider_id, "coingecko") {
        Provider {
            id: String::from_str("coingecko"),
            name: String::from_str("CoinGecko"),
            logo: String::from_str("assets/images/coingecko-logo.png"),
        }
    } else {
        Provider {
            id: String::from_str(provider_id),
            name: String::new(),
            logo: String::new(),
        }
    }
}

} // verus!
