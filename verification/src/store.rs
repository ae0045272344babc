//! The commands to the key-value store, and what they mean.

use vstd::prelude::*;

use crate::http;
use vstd::string::StringExecFns;

verus! {

/// The store did not do what it was asked for.
pub struct StoreFault;

/// What the store holds under a key or a field.
pub enum Stored<V> {
    /// Nothing.
    Missing,
    /// Something that does not read as what is kept there.
    Unreadable,
    Value(V),
}

impl<V> Stored<V> {
    /// The value, if there is one that reads.
    pub open spec fn value(self) -> Option<V> {
        match self {
            Stored::Value(v) => Some(v),
            _ => None,
        }
    }

    pub fn into_value(self) -> (r: Option<V>)
        ensures
            r == self.value(),
    {
        match self {
            Stored::Value(v) => Some(v),
            _ => None,
        }
    }
}

/// Those that read, in their order.
pub open spec fn values_of<V>(raw: Seq<Stored<V>>) -> Seq<V> {
    raw.filter(|stored: Stored<V>| stored is Value).map_values(|stored: Stored<V>| stored.value()->0)
}

/// Keeps those that read.
pub fn readable<V>(raw: Vec<Stored<V>>) -> (r: Vec<V>)
    ensures
        r@ == values_of(raw@),
{
    let ghost reads = |stored: Stored<V>| stored is Value;
    let ghost value = |stored: Stored<V>| stored.value()->0;
    let mut r: Vec<V> = Vec::new();
    proof {
        reveal(Seq::filter);
        assert(values_of(raw@.take(0)) =~= r@);
    }
    for stored in it: raw
        invariant
            it.seq() == raw@,
            reads == |stored: Stored<V>| stored is Value,
            value == |stored: Stored<V>| stored.value()->0,
            r@ == values_of(raw@.take(it.index())),
    {
        proof {
            let taken = raw@.take(it.index());
            assert(raw@.take(it.index() + 1) =~= taken.push(stored));
            taken.lemma_filter_push(stored, reads);
            assert(taken.filter(reads).push(stored).map_values(value) =~= taken.filter(
                reads,
            ).map_values(value).push(value(stored)));
        }
        if let Stored::Value(v) = stored {
            r.push(v);
        }
    }
    assert(raw@.take(raw@.len() as int) =~= raw@);
    r
}

/// A command that writes. Values are of type `V` until they are encoded.
pub enum Command<V> {
    Put { key: String, value: V },
    HashSet { key: String, field: String, value: V },
    /// Sets the field unless it is there already.
    HashSetNew { key: String, field: String, value: V },
    HashDelete { key: String, field: String },
    /// Puts the value at the front of the list.
    ListPush { key: String, value: V },
    Delete { keys: Vec<String> },
}

/// A command that reads.
pub enum Query {
    Get { key: String },
    HashGet { key: String, field: String },
    HashAll { key: String },
    HashHas { key: String, field: String },
    /// The whole list, from its front.
    ListAll { key: String },
}

/// What a store holds: under each key a value, the fields of a hash, or a list.
pub struct Db<V> {
    pub values: Map<Seq<char>, V>,
    pub fields: Map<(Seq<char>, Seq<char>), V>,
    pub lists: Map<Seq<char>, Seq<V>>,
}

impl<V> Db<V> {
    pub open spec fn value_at(self, key: Seq<char>) -> Option<V> {
        if self.values.contains_key(key) {
            Some(self.values[key])
        } else {
            None
        }
    }

    pub open spec fn field_at(self, key: Seq<char>, field: Seq<char>) -> Option<V> {
        if self.fields.contains_key((key, field)) {
            Some(self.fields[(key, field)])
        } else {
            None
        }
    }

    pub open spec fn list_at(self, key: Seq<char>) -> Seq<V> {
        if self.lists.contains_key(key) {
            self.lists[key]
        } else {
            Seq::empty()
        }
    }

    /// Whether a key is one of those.
    pub open spec fn named(keys: Seq<String>, key: Seq<char>) -> bool {
        exists|i: int| 0 <= i < keys.len() && (#[trigger] keys[i])@ == key
    }

    /// Whether a command that sets a new field sets it.
    pub open spec fn sets_new(self, command: Command<V>) -> bool {
        command matches Command::HashSetNew { key, field, .. } && !self.fields.contains_key(
            (key@, field@),
        )
    }

    /// What the store holds once it has done a command.
    pub open spec fn after(self, command: Command<V>) -> Db<V> {
        match command {
            Command::Put { key, value } => Db { values: self.values.insert(key@, value), ..self },
            Command::HashSet { key, field, value } => Db {
                fields: self.fields.insert((key@, field@), value),
                ..self
            },
            Command::HashSetNew { key, field, value } => if self.fields.contains_key(
                (key@, field@),
            ) {
                self
            } else {
                Db { fields: self.fields.insert((key@, field@), value), ..self }
            },
            Command::HashDelete { key, field } => Db {
                fields: self.fields.remove((key@, field@)),
                ..self
            },
            Command::ListPush { key, value } => Db {
                lists: self.lists.insert(key@, seq![value] + self.list_at(key@)),
                ..self
            },
            Command::Delete { keys } => Db {
                values: Map::new(
                    |k: Seq<char>| self.values.contains_key(k) && !Self::named(keys@, k),
                    |k: Seq<char>| self.values[k],
                ),
                fields: Map::new(
                    |k: (Seq<char>, Seq<char>)|
                        self.fields.contains_key(k) && !Self::named(keys@, k.0),
                    |k: (Seq<char>, Seq<char>)| self.fields[k],
                ),
                lists: Map::new(
                    |k: Seq<char>| self.lists.contains_key(k) && !Self::named(keys@, k),
                    |k: Seq<char>| self.lists[k],
                ),
            },
        }
    }
}

/// The store's address, from the environment's variables for its host and its port; a
/// store on this machine where they are not set.
pub fn redis_url(host: Option<String>, port: Option<String>) -> (r: String)
    ensures
        r@ == "redis://"@ + (if host is Some {
            host->0@
        } else {
            "127.0.0.1"@
        }) + ":"@ + (if port is Some {
            port->0@
        } else {
            "6379"@
        }),
{
    let mut r = String::new();
    r.append("redis://");
    r.append(http::env_or(host, "127.0.0.1").as_str());
    r.append(":");
    r.append(http::env_or(port, "6379").as_str());
    r
}

}
