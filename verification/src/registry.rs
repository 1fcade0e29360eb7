//! The leverage registry: an ordered, id-addressed collection of rows, each
//! pairing a provider with one of its data streams. Creation appends at the
//! end under a freshly generated identifier; edit, update and delete act on
//! the first entry with a matching id and are silent no-ops when the id is
//! absent. Row order is meaningful to the caller and is never reshuffled.

use vstd::prelude::*;
use crate::catalog::{
    catalog_streams, get_data_streams_for_provider, resolve_provider, resolved_provider,
    streams_view, DataStream, DataStreamView, Provider, ProviderView,
};
use crate::strutil::str_eq;

verus! {

/// One row: a generated identifier, the provider it draws on, and the chosen
/// data stream. The identifier is assigned at creation and never changes.
pub struct Leverage {
    pub id: String,
    pub provider: Provider,
    pub data_stream: DataStream,
}

/// Mathematical image of a `Leverage`.
pub ghost struct LeverageView {
    pub id: Seq<char>,
    pub provider: ProviderView,
    pub data_stream: DataStreamView,
}

impl View for Leverage {
    type V = LeverageView;

    open spec fn view(&self) -> LeverageView {
        LeverageView { id: self.id@, provider: self.provider@, data_stream: self.data_stream@ }
    }
}

/// The images of a sequence of leverages.
pub open spec fn leverages_view(s: Seq<Leverage>) -> Seq<LeverageView> {
    s.map_values(|l: Leverage| l@)
}

/// Whether some entry of `s` carries the id.
pub open spec fn has_entry(s: Seq<LeverageView>, id: Seq<char>) -> bool {
    exists|i: int| 0 <= i < s.len() && s[i].id == id
}

/// Whether position `i` holds the first entry of `s` carrying the id.
pub open spec fn is_first_entry(s: Seq<LeverageView>, id: Seq<char>, i: int) -> bool {
    &&& 0 <= i < s.len()
    &&& s[i].id == id
    &&& forall|j: int| 0 <= j < i ==> s[j].id != id
}

/// Whether `c` is a lowercase hexadecimal digit.
pub open spec fn is_hex_lower(c: char) -> bool {
    ('0' as u32) <= (c as u32) <= ('9' as u32) || ('a' as u32) <= (c as u32) <= ('f' as u32)
}

/// The shape of a generated identifier: 36 characters, hyphens at positions
/// 8, 13, 18 and 23, lowercase hexadecimal digits everywhere else.
pub open spec fn is_uuid_text(s: Seq<char>) -> bool {
    &&& s.len() == 36
    &&& forall|i: int| 0 <= i < 36 ==> (if i == 8 || i == 13 || i == 18 || i == 23 {
        s[i] == '-'
    } else {
        is_hex_lower(s[i])
    })
}

/// Relies on `uuid::Uuid::new_v4` and its `Display` form: a fresh random
/// 128-bit identifier, rendered as 36 characters in hyphenated lowercase
/// hexadecimal groups. The value is random, so nothing beyond its shape is
/// promised; two calls may (and all but surely do) differ.
#[verifier::external_body]
fn fresh_id() -> (r: String)
    ensures
        is_uuid_text(r@),
{
    uuid::Uuid::new_v4().to_string()
}

/// The ordered collection of leverage rows.
pub struct LeverageRegistry {
    entries: Vec<Leverage>,
}

impl View for LeverageRegistry {
    type V = Seq<LeverageView>;

    closed spec fn view(&self) -> Seq<LeverageView> {
        leverages_view(self.entries@)
    }
}

impl LeverageRegistry {
    /// An empty registry.
    pub fn new() -> (r: LeverageRegistry)
        ensures
            r@ == Seq::<LeverageView>::empty(),
    {
        let r = LeverageRegistry { entries: Vec::new() };
        proof {
            assert(r@ =~= Seq::<LeverageView>::empty());
        }
        r
    }

    /// The current rows, in order.
    pub fn list(&self) -> (r: &Vec<Leverage>)
        ensures
            leverages_view(r@) == self@,
    {
        &self.entries
    }

    /// Appends a new row at the end: a freshly generated id, the provider
    /// metadata resolved against the catalog, and the given stream id and
    /// name. Never fails; an unknown provider id still produces a row.
    pub fn create(&mut self, provider_id: &str, data_stream_id: &str, data_stream_name: &str)
        ensures
            final(self)@.len() == old(self)@.len() + 1,
            final(self)@.subrange(0, old(self)@.len() as int) == old(self)@,
            is_uuid_text(final(self)@.last().id),
            final(self)@.last().provider == resolved_provider(provider_id@),
            final(self)@.last().data_stream == (DataStreamView {
                id: data_stream_id@,
                name: data_stream_name@,
            }),
    {
        let id = fresh_id();
        let lev = Leverage {
            id,
            provider: resolve_provider(provider_id),
            data_stream: DataStream {
                id: String::from_str(data_stream_id),
                name: String::from_str(data_stream_name),
            },
        };
        let ghost lv = lev@;
        self.entries.push(lev);
        proof {
            assert(self@ =~= old(self)@.push(lv));
            assert(self@.subrange(0, old(self)@.len() as int) =~= old(self)@);
        }
    }

    /// Looks up the first row with the given id; when found, returns the
    /// catalog's data streams for that row's provider, so a selection view
    /// can be repopulated. When the id is absent, returns nothing and has no
    /// visible effect.
    pub fn edit(&self, leverage_id: &str) -> (r: Option<Vec<DataStream>>)
        ensures
            (match r {
                Some(streams) => has_entry(self@, leverage_id@) && (forall|i: int|
                    is_first_entry(self@, leverage_id@, i) ==> streams_view(streams@)
                        == catalog_streams(self@[i].provider.id)),
                None => !has_entry(self@, leverage_id@),
            }),
    {
        let n = self.entries.len();
        let mut i: usize = 0;
        while i < n
            invariant
                n == self.entries.len(),
                i <= n,
                forall|j: int| 0 <= j < i ==> self@[j].id != leverage_id@,
            decreases n - i,
        {
            if str_eq(self.entries[i].id.as_str(), leverage_id) {
                proof {
                    assert(is_first_entry(self@, leverage_id@, i as int));
                    assert(forall|k: int| is_first_entry(self@, leverage_id@, k) ==> k == i as int);
                }
                return Some(get_data_streams_for_provider(self.entries[i].provider.id.as_str()));
            }
            i = i + 1;
        }
        None
    }

    /// Replaces the provider and data stream of the first row with the given
    /// id, as one atomic pair, resolving the provider metadata the same way
    /// `create` does; the row's id and position stay untouched, and every
    /// other row is left as it was. When the id is absent, a silent no-op.
    pub fn update(
        &mut self,
        leverage_id: &str,
        provider_id: &str,
        data_stream_id: &str,
        data_stream_name: &str,
    )
        ensures
            !has_entry(old(self)@, leverage_id@) ==> final(self)@ == old(self)@,
            forall|i: int|
                is_first_entry(old(self)@, leverage_id@, i) ==> final(self)@ == old(self)@.update(
                    i,
                    (LeverageView {
                        id: old(self)@[i].id,
                        provider: resolved_provider(provider_id@),
                        data_stream: DataStreamView {
                            id: data_stream_id@,
                            name: data_stream_name@,
                        },
                    }),
                ),
    {
        let n = self.entries.len();
        let mut i: usize = 0;
        while i < n
            invariant
                n == self.entries.len(),
                i <= n,
                self.entries@ == old(self).entries@,
                forall|j: int| 0 <= j < i ==> self@[j].id != leverage_id@,
            decreases n - i,
        {
            if str_eq(self.entries[i].id.as_str(), leverage_id) {
                proof {
                    assert(self@ == old(self)@);
                    assert(old(self)@[i as int].id == leverage_id@);
                    assert(is_first_entry(old(self)@, leverage_id@, i as int));
                    assert(forall|k: int|
                        is_first_entry(old(self)@, leverage_id@, k) ==> k == i as int);
                }
                let kept_id = self.entries[i].id.clone();
                let lev = Leverage {
                    id: kept_id,
                    provider: resolve_provider(provider_id),
                    data_stream: DataStream {
                        id: String::from_str(data_stream_id),
                        name: String::from_str(data_stream_name),
                    },
                };
                self.entries.set(i, lev);
                proof {
                    assert(self@ =~= old(self)@.update(
                        i as int,
                        (LeverageView {
                            id: old(self)@[i as int].id,
                            provider: resolved_provider(provider_id@),
                            data_stream: DataStreamView {
                                id: data_stream_id@,
                                name: data_stream_name@,
                            },
                        }),
                    ));
                }
                return ;
            }
            i = i + 1;
        }
    }

    /// Removes the first row with the given id, shifting the rows after it
    /// one position down. Deleting an absent id leaves the list exactly as it
    /// was: same entries, same order.
    pub fn delete(&mut self, leverage_id: &str)
        ensures
            !has_entry(old(self)@, leverage_id@) ==> final(self)@ == old(self)@,
            forall|i: int|
                is_first_entry(old(self)@, leverage_id@, i) ==> final(self)@ == old(self)@.remove(
                    i,
                ),
    {
        let n = self.entries.len();
        let mut i: usize = 0;
        while i < n
            invariant
                n == self.entries.len(),
                i <= n,
                self.entries@ == old(self).entries@,
                forall|j: int| 0 <= j < i ==> self@[j].id != leverage_id@,
            decreases n - i,
        {
            if str_eq(self.entries[i].id.as_str(), leverage_id) {
                proof {
                    assert(self@ == old(self)@);
                    assert(old(self)@[i as int].id == leverage_id@);
                    assert(is_first_entry(old(self)@, leverage_id@, i as int));
                    assert(forall|k: int|
                        is_first_entry(old(self)@, leverage_id@, k) ==> k == i as int);
                }
                self.entries.remove(i);
                proof {
                    assert(self@ =~= old(self)@.remove(i as int));
                }
                return ;
            }
            i = i + 1;
        }
    }
}

} // verus!
