//! The countdown store: names with the dates that they count down to.

use vstd::prelude::*;

use crate::http::{Response, Status};
use crate::store::{Command, Db, Query, StoreFault};

verus! {

/// The hash that holds every countdown's date under its name.
pub const COUNTDOWNS_KEY: &'static str = "hub:countdowns";

pub struct Countdown {
    pub name: String,
    /// The date, kept as it was given.
    pub date: String,
}

/// The query for all countdowns.
pub fn list_query() -> (r: Query)
    ensures
        r matches Query::HashAll { key } && key@ == COUNTDOWNS_KEY@,
{
    Query::HashAll { key: COUNTDOWNS_KEY.to_owned() }
}

/// The answer to a request for all countdowns, from the store's reply.
pub fn handle_list(reply: Result<Vec<(String, String)>, StoreFault>) -> (r: Response<
    Vec<(String, String)>,
>)
    ensures
        r == match reply {
            Ok(all) => Response::Json(all),
            Err(_) => Response::Bare(Status::BadGateway),
        },
{
    match reply {
        Ok(all) => Response::Json(all),
        Err(_) => Response::Bare(Status::BadGateway),
    }
}

/// The query for the date of one countdown.
pub fn get_query(name: &str) -> (r: Query)
    ensures
        r matches Query::HashGet { key, field } && key@ == COUNTDOWNS_KEY@ && field@ == name@,
{
    Query::HashGet { key: COUNTDOWNS_KEY.to_owned(), field: name.to_owned() }
}

/// The answer to a request for one countdown, from the store's reply.
pub fn handle_get(reply: Result<Option<String>, StoreFault>) -> (r: Response<String>)
    ensures
        r == get_response(reply),
{
    match reply {
        Ok(Some(date)) => Response::Json(date),
        Ok(None) => Response::Bare(Status::NotFound),
        Err(_) => Response::Bare(Status::BadGateway),
    }
}

pub open spec fn get_response(reply: Result<Option<String>, StoreFault>) -> Response<String> {
    match reply {
        Ok(Some(date)) => Response::Json(date),
        Ok(None) => Response::Bare(Status::NotFound),
        Err(_) => Response::Bare(Status::BadGateway),
    }
}

/// The command that stores a countdown, over one of the same name.
pub fn put_command(countdown: Countdown) -> (r: Command<String>)
    ensures
        puts(r, countdown),
{
    Command::HashSet {
        key: COUNTDOWNS_KEY.to_owned(),
        field: countdown.name,
        value: countdown.date,
    }
}

pub open spec fn puts(command: Command<String>, countdown: Countdown) -> bool {
    command matches Command::HashSet { key, field, value } && key@ == COUNTDOWNS_KEY@ && field
        == countdown.name && value == countdown.date
}

/// The command that removes a countdown, if there is one of the name.
pub fn delete_command(name: &str) -> (r: Command<String>)
    ensures
        deletes(r, name@),
{
    Command::HashDelete { key: COUNTDOWNS_KEY.to_owned(), field: name.to_owned() }
}

pub open spec fn deletes(command: Command<String>, name: Seq<char>) -> bool {
    command matches Command::HashDelete { key, field } && key@ == COUNTDOWNS_KEY@ && field@ == name
}

/// The answer to a request to store a countdown, from what the store did.
pub fn handle_put(outcome: Result<(), StoreFault>) -> (r: Response<()>)
    ensures
        r == (if outcome is Ok {
            Response::<()>::Bare(Status::Success)
        } else {
            Response::Bare(Status::BadGateway)
        }),
{
    match outcome {
        Ok(()) => Response::Bare(Status::Success),
        Err(_) => Response::Bare(Status::BadGateway),
    }
}

/// The answer to a request to remove a countdown, from what the store did.
pub fn handle_delete(outcome: Result<(), StoreFault>) -> (r: Response<()>)
    ensures
        r == (if outcome is Ok {
            Response::<()>::Bare(Status::Success)
        } else {
            Response::Bare(Status::BadGateway)
        }),
{
    handle_put(outcome)
}

// --- Laws ---

/// The answer to a request for the countdown `name` while the store holds `db`.
pub open spec fn read_back(db: Db<String>, name: Seq<char>) -> Response<String> {
    get_response(Ok(db.field_at(COUNTDOWNS_KEY@, name)))
}

/// A countdown that was stored is read back with its date, whatever was stored under
/// its name before; the others are read as before.
pub proof fn lemma_put_then_get(
    db: Db<String>,
    command: Command<String>,
    countdown: Countdown,
    other: Seq<char>,
)
    requires
        puts(command, countdown),
        other != countdown.name@,
    ensures
        read_back(db.after(command), countdown.name@) == Response::Json(countdown.date),
        read_back(db.after(command), other) == read_back(db, other),
{
}

/// A countdown that was removed is not found; the others are read as before.
pub proof fn lemma_delete_then_get(
    db: Db<String>,
    command: Command<String>,
    name: Seq<char>,
    other: Seq<char>,
)
    requires
        deletes(command, name),
        other != name,
    ensures
        read_back(db.after(command), name) == Response::<String>::Bare(Status::NotFound),
        read_back(db.after(command), other) == read_back(db, other),
{
}

/// To remove a countdown twice is to remove it once.
pub proof fn lemma_delete_idempotent(db: Db<String>, command: Command<String>, name: Seq<char>)
    requires
        deletes(command, name),
    ensures
        db.after(command).after(command) == db.after(command),
{
    if let Command::HashDelete { key, field } = command {
        assert(db.fields.remove((key@, field@)).remove((key@, field@)) =~= db.fields.remove(
            (key@, field@),
        ));
    }
}

/// Countdowns are kept, each under its name, in one hash.
pub proof fn lemma_commands(
    countdown: Countdown,
    name: &str,
    put: Command<String>,
    delete: Command<String>,
    get: Query,
    list: Query,
)
    requires
        call_ensures(put_command, (countdown,), put),
        call_ensures(delete_command, (name,), delete),
        call_ensures(get_query, (name,), get),
        call_ensures(list_query, (), list),
    ensures
        put matches Command::HashSet { key, field, value } && key@ == "hub:countdowns"@ && field@
            == countdown.name@ && value@ == countdown.date@,
        delete matches Command::HashDelete { key, field } && key@ == "hub:countdowns"@ && field@
            == name@,
        get matches Query::HashGet { key, field } && key@ == "hub:countdowns"@ && field@ == name@,
        list matches Query::HashAll { key } && key@ == "hub:countdowns"@,
{
}

/// What is read is answered with as it is; a countdown that is not there is not found,
/// and a failure of the store is told.
pub proof fn lemma_answers(
    listed: Result<Vec<(String, String)>, StoreFault>,
    all: Response<Vec<(String, String)>>,
    reply: Result<Option<String>, StoreFault>,
    one: Response<String>,
    outcome: Result<(), StoreFault>,
    put: Response<()>,
    deleted: Response<()>,
)
    requires
        call_ensures(handle_list, (listed,), all),
        call_ensures(handle_get, (reply,), one),
        call_ensures(handle_put, (outcome,), put),
        call_ensures(handle_delete, (outcome,), deleted),
    ensures
        listed matches Ok(pairs) ==> all == Response::Json(pairs),
        listed is Err ==> all == Response::<Vec<(String, String)>>::Bare(Status::BadGateway),
        reply matches Ok(Some(date)) ==> one == Response::Json(date),
        reply == Ok::<Option<String>, StoreFault>(None) ==> one == Response::<String>::Bare(
            Status::NotFound,
        ),
        reply is Err ==> one == Response::<String>::Bare(Status::BadGateway),
        outcome is Ok ==> put == Response::<()>::Bare(Status::Success) && deleted == put,
        outcome is Err ==> put == Response::<()>::Bare(Status::BadGateway) && deleted == put,
{
}

}
