//! What a transaction, as the host describes it, holds for decoding: the
//! body of the message that came in, and the bodies of the messages that
//! went out of the ledger.

use vstd::prelude::*;
use vstd::string::StringExecFns;
use crate::codec::{collect, find_entry, lemma_collect_first_error, lemma_collect_ok, lookup};
use crate::error::{BridgeError, ErrorModel};
use crate::schema::present;
use crate::value::{entries_view, items_view, lemma_list_view, lemma_object_view, HostModel, HostValue};

verus! {

/// The body of an inbound message, and whether the message came from a
/// contract.
#[derive(Debug, PartialEq, Eq)]
pub struct InboundCall {
    pub body: String,
    pub internal: bool,
}

/// Whether an object has a text under the given name.
pub open spec fn has_text(entries: Seq<(Seq<char>, HostModel)>, name: Seq<char>) -> bool {
    lookup(entries, name) matches Some(HostModel::Text(_))
}

/// The text under the given name, if the object has one.
pub open spec fn text_of(entries: Seq<(Seq<char>, HostModel)>, name: Seq<char>) -> Option<
    Seq<char>,
> {
    match lookup(entries, name) {
        Some(HostModel::Text(text)) => Some(text),
        _ => None,
    }
}

/// The call that a transaction holds: the body of its `inMessage`, where
/// that has one as a text, and whether the message has a `src` text, as a
/// message from a contract has. A transaction that is no object, or whose
/// `inMessage` is none, is a `TypeMismatch`.
pub open spec fn inbound_call(transaction: HostModel) -> Result<
    Option<(Seq<char>, bool)>,
    ErrorModel,
> {
    match transaction {
        HostModel::Object(entries) => match lookup(entries, "inMessage"@) {
            Some(HostModel::Object(message)) => match text_of(message, "body"@) {
                Some(body) => Ok(Some((body, has_text(message, "src"@)))),
                None => Ok(None),
            },
            _ => Err(ErrorModel::TypeMismatch),
        },
        _ => Err(ErrorModel::TypeMismatch),
    }
}

/// The body that an outbound message gives: none for a message to a
/// contract, which has a `dst` text; else its `body` text. Where that is
/// missing, the message is a `TypeMismatch` if bodies are required, and
/// gives none otherwise. A message that is no object is a `TypeMismatch`.
pub open spec fn outbound_body(message: HostModel, required: bool) -> Result<
    Option<Seq<char>>,
    ErrorModel,
> {
    match message {
        HostModel::Object(entries) => if has_text(entries, "dst"@) {
            Ok(None)
        } else {
            match text_of(entries, "body"@) {
                Some(body) => Ok(Some(body)),
                None => if required {
                    Err(ErrorModel::TypeMismatch)
                } else {
                    Ok(None)
                },
            }
        },
        _ => Err(ErrorModel::TypeMismatch),
    }
}

/// What each outbound message gives.
pub open spec fn outbound_results(messages: Seq<HostModel>, required: bool) -> Seq<
    Result<Option<Seq<char>>, ErrorModel>,
> {
    Seq::new(messages.len(), |i: int| outbound_body(messages[i], required))
}

/// The bodies of the messages that a transaction sent out of the ledger, in
/// order. A transaction that is no object, or whose `outMessages` is no
/// list, is a `TypeMismatch`; so is the first message that is one.
pub open spec fn outbound_bodies(transaction: HostModel, required: bool) -> Result<
    Seq<Seq<char>>,
    ErrorModel,
> {
    match transaction {
        HostModel::Object(entries) => match lookup(entries, "outMessages"@) {
            Some(HostModel::List(messages)) => match collect(
                outbound_results(messages, required),
            ) {
                Ok(options) => Ok(present(options)),
                Err(e) => Err(e),
            },
            _ => Err(ErrorModel::TypeMismatch),
        },
        _ => Err(ErrorModel::TypeMismatch),
    }
}

/// The text under the given name, if the object has one.
fn find_text<'a>(entries: &'a Vec<(String, HostValue)>, name: &str) -> (r: Option<&'a String>)
    ensures
        match r {
            Some(text) => text_of(entries_view(entries@), name@) == Some(text@),
            None => text_of(entries_view(entries@), name@) is None,
        },
{
    match find_entry(entries, &String::from_str(name)) {
        Some(HostValue::Text(text)) => Some(text),
        _ => None,
    }
}

/// The call that a transaction holds.
pub fn find_inbound_call(transaction: &HostValue) -> (r: Result<Option<InboundCall>, BridgeError>)
    ensures
        match r {
            Ok(Some(call)) => inbound_call(transaction@) == Ok::<
                Option<(Seq<char>, bool)>,
                ErrorModel,
            >(Some((call.body@, call.internal))),
            Ok(None) => inbound_call(transaction@) == Ok::<Option<(Seq<char>, bool)>, ErrorModel>(
                None,
            ),
            Err(e) => inbound_call(transaction@) == Err::<Option<(Seq<char>, bool)>, ErrorModel>(
                e@,
            ),
        },
{
    let entries = match transaction {
        HostValue::Object(entries) => entries,
        _ => {
            return Err(BridgeError::TypeMismatch);
        },
    };
    proof {
        lemma_object_view(*entries);
    }
    let message = match find_entry(entries, &String::from_str("inMessage")) {
        Some(HostValue::Object(message)) => {
            proof {
                lemma_object_view(*message);
            }
            message
        },
        _ => {
            return Err(BridgeError::TypeMismatch);
        },
    };
    let internal = find_text(message, "src").is_some();
    match find_text(message, "body") {
        Some(body) => Ok(Some(InboundCall { body: body.clone(), internal })),
        None => Ok(None),
    }
}

/// The body that an outbound message gives.
pub fn find_outbound_body(message: &HostValue, required: bool) -> (r: Result<
    Option<String>,
    BridgeError,
>)
    ensures
        match r {
            Ok(Some(body)) => outbound_body(message@, required) == Ok::<
                Option<Seq<char>>,
                ErrorModel,
            >(Some(body@)),
            Ok(None) => outbound_body(message@, required) == Ok::<Option<Seq<char>>, ErrorModel>(
                None,
            ),
            Err(e) => outbound_body(message@, required) == Err::<Option<Seq<char>>, ErrorModel>(
                e@,
            ),
        },
{
    let entries = match message {
        HostValue::Object(entries) => entries,
        _ => {
            return Err(BridgeError::TypeMismatch);
        },
    };
    proof {
        lemma_object_view(*entries);
    }
    if find_text(entries, "dst").is_some() {
        return Ok(None);
    }
    match find_text(entries, "body") {
        Some(body) => Ok(Some(body.clone())),
        None => if required {
            Err(BridgeError::TypeMismatch)
        } else {
            Ok(None)
        },
    }
}

/// The texts of a list as mathematical values.
pub open spec fn texts_view(texts: Seq<String>) -> Seq<Seq<char>> {
    Seq::new(texts.len(), |i: int| texts[i]@)
}

/// The bodies of the messages that a transaction sent out of the ledger.
#[verifier::loop_isolation(false)]
pub fn find_outbound_bodies(transaction: &HostValue, required: bool) -> (r: Result<
    Vec<String>,
    BridgeError,
>)
    ensures
        match r {
            Ok(bodies) => outbound_bodies(transaction@, required) == Ok::<
                Seq<Seq<char>>,
                ErrorModel,
            >(texts_view(bodies@)),
            Err(e) => outbound_bodies(transaction@, required) == Err::<Seq<Seq<char>>, ErrorModel>(
                e@,
            ),
        },
{
    let entries = match transaction {
        HostValue::Object(entries) => entries,
        _ => {
            return Err(BridgeError::TypeMismatch);
        },
    };
    proof {
        lemma_object_view(*entries);
    }
    let messages = match find_entry(entries, &String::from_str("outMessages")) {
        Some(HostValue::List(messages)) => {
            proof {
                lemma_list_view(*messages);
            }
            messages
        },
        _ => {
            return Err(BridgeError::TypeMismatch);
        },
    };
    let ghost results = outbound_results(items_view(messages@), required);
    let ghost options = Seq::new(results.len(), |i: int| results[i]->Ok_0);
    let mut bodies: Vec<String> = Vec::new();
    let mut i: usize = 0;
    assert(options.take(0) =~= Seq::empty());
    while i < messages.len()
        invariant
            i <= messages.len(),
            forall|j: int| 0 <= j < i ==> (#[trigger] results[j]) is Ok,
            texts_view(bodies@) == present(options.take(i as int)),
        decreases messages.len() - i,
    {
        proof {
            assert(options.take(i + 1).drop_last() =~= options.take(i as int));
            assert(options.take(i + 1).last() == results[i as int]->Ok_0);
        }
        match find_outbound_body(&messages[i], required) {
            Ok(Some(body)) => {
                let ghost before = texts_view(bodies@);
                let ghost text = body@;
                bodies.push(body);
                assert(texts_view(bodies@) =~= before.push(text));
            },
            Ok(None) => {},
            Err(e) => {
                proof {
                    lemma_collect_first_error(results, i as int);
                }
                return Err(e);
            },
        }
        i = i + 1;
    }
    proof {
        lemma_collect_ok(results);
        assert(options.take(i as int) =~= options);
    }
    Ok(bodies)
}

} // verus!
