//! Laws of what is read from the store.

use vstd::prelude::*;

use crate::listing;
use crate::store;
use crate::store::Stored;

verus! {

/// `values` are the values at `places`, which are those of all that read.
pub open spec fn reads_at<V>(raw: Seq<Stored<V>>, places: Seq<int>, values: Seq<V>) -> bool {
    &&& listing::are_places(raw, |stored: Stored<V>| stored is Value, places)
    &&& values.len() == places.len()
    &&& forall|k: int|
        0 <= k < values.len() ==> Stored::Value(#[trigger] values[k]) == raw[places[k]]
}

/// `values` are all that read, in their order.
pub open spec fn reads_as<V>(raw: Seq<Stored<V>>, values: Seq<V>) -> bool {
    exists|places: Seq<int>| #[trigger] reads_at(raw, places, values)
}

/// Those that read are the values at the places of all that read.
pub proof fn lemma_values_of<V>(raw: Seq<Stored<V>>)
    ensures
        reads_as(raw, store::values_of(raw)),
{
    let places = listing::lemma_filter_places(raw, |stored: Stored<V>| stored is Value);
    assert(reads_at(raw, places, store::values_of(raw)));
}

/// All that read are kept, each once and in their order, and nothing else.
pub proof fn lemma_readable<V>(raw: Vec<Stored<V>>, values: Vec<V>)
    requires
        call_ensures(store::readable::<V>, (raw,), values),
    ensures
        reads_as(raw@, values@),
{
    lemma_values_of(raw@);
}

/// The store's address.
pub proof fn lemma_redis_url(host: Option<String>, port: Option<String>, url: String)
    requires
        call_ensures(store::redis_url, (host, port), url),
    ensures
        host is Some && port is Some ==> url@ == "redis://"@ + host->0@ + ":"@ + port->0@,
        host is None && port is Some ==> url@ == "redis://"@ + "127.0.0.1"@ + ":"@ + port->0@,
        host is Some && port is None ==> url@ == "redis://"@ + host->0@ + ":"@ + "6379"@,
        host is None && port is None ==> url@ == "redis://"@ + "127.0.0.1"@ + ":"@ + "6379"@,
{
}

/// A value is there where one reads.
pub proof fn lemma_into_value<V>(stored: Stored<V>, value: Option<V>)
    requires
        call_ensures(Stored::<V>::into_value, (stored,), value),
    ensures
        value is Some <==> stored is Value,
        value matches Some(v) ==> stored == Stored::Value(v),
{
}

}
