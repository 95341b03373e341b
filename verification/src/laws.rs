//! What holds of the guard and of the document service, whatever the store
//! holds and whatever the request is.
//!
//! The laws speak of a store that follows [`store_step`], and of the guard and
//! the service as they are driven against it: see [`crate::driver`].

use crate::document::{
    distinct_names, lemma_merged_distinct, lemma_with_field_distinct, lemma_with_field_other,
    lemma_with_field_position, lemma_with_field_twice, with_field,
};
use crate::driver::{guard_driven, guard_run, served};
use crate::guard::{
    expiry_field, expiry_of, extend_request, guard_event_of, guard_step, lookup_request,
    session_collection, session_token, token_field, GuardActionView, GuardEventView,
    GuardStateView, SESSION_TIME,
};
use crate::ident::id_text;
use crate::model::{
    carries_id, collection_flags, first_match, id_flags, id_name, id_texts, is_match,
    lemma_matching_count,
    lemma_matching_none, lemma_matching_single, lemma_merged_keeps_id, lemma_opened,
    lemma_remaining_none_match, lemma_stored_id, lemma_with_documents,
    lemma_with_field_keeps_id, match_flags, matching, remaining, starts_with_id, store_step,
    stored, stored_all, touches_id, updated, StoreView,
};
use crate::protocol::{MutationView, StoreRequestView};
use crate::search::{first_true, lemma_first_true};
use crate::service::{
    delete_doc_request, insert_field_request, read_doc_request, ServiceError, ServiceResponseView,
};
use crate::value::{
    field_value, has_field, lemma_position, lemma_position_is, FieldView, ValueView,
};
use vstd::prelude::*;

verus! {

/// The session that the guard goes by for a token: the first one in the store
/// that has it.
pub open spec fn session_of(db: StoreView, token: Seq<char>) -> Option<Seq<FieldView>> {
    first_match(db.documents(session_collection()), token_field(), ValueView::Text(token))
}

/// The names of the session's fields differ from one another and from the
/// identifier's.
proof fn lemma_field_names()
    ensures
        expiry_field() != id_name(),
        expiry_field() != token_field(),
        token_field() != id_name(),
{
    reveal_strlit("_id");
    reveal_strlit("session_id");
    reveal_strlit("active_period_expires_at");
    assert(id_name().len() == 3);
    assert(token_field().len() == 10);
    assert(expiry_field().len() == 24);
}

/// A collection in which a document is found is one that the store has.
proof fn lemma_found_is_present(db: StoreView, name: Seq<char>)
    requires
        db.documents(name).len() > 0,
    ensures
        db.has_collection(name),
        db.opened(name) == db,
{
}

/// A request without a session token is rejected before the store is asked
/// anything, and the store stays as it is.
pub proof fn request_without_token_is_rejected(
    db: StoreView,
    cookie_header: Option<Seq<char>>,
    now: i64,
)
    requires
        session_token(cookie_header) is None,
    ensures
        guard_step(GuardStateView::Start, GuardEventView::Request { cookie_header }, now) == (
            GuardStateView::Closed,
            GuardActionView::Reject,
        ),
        guard_run(db, cookie_header, now) == (db, Some(false)),
{
}

/// A request whose session has not expired is admitted, and every session
/// with its token then expires `SESSION_TIME` seconds after the request. No
/// other document changes.
pub proof fn live_session_is_admitted_and_extended(
    db: StoreView,
    cookie_header: Option<Seq<char>>,
    token: Seq<char>,
    session: Seq<FieldView>,
    expires_at: i64,
    now: i64,
)
    requires
        session_token(cookie_header) == Some(token),
        session_of(db, token) == Some(session),
        expiry_of(session) == Some(expires_at),
        now <= expires_at,
        now + SESSION_TIME <= i64::MAX,
    ensures
        guard_run(db, cookie_header, now).1 == Some(true),
        guard_run(db, cookie_header, now).0 == db.with_documents(
            session_collection(),
            updated(
                db.documents(session_collection()),
                token_field(),
                ValueView::Text(token),
                MutationView::SetField {
                    name: expiry_field(),
                    value: ValueView::Int((now + SESSION_TIME) as i64),
                },
            ),
        ),
        session_of(guard_run(db, cookie_header, now).0, token) == Some(
            with_field(session, expiry_field(), ValueView::Int((now + SESSION_TIME) as i64)),
        ),
        expiry_of(session_of(guard_run(db, cookie_header, now).0, token).unwrap()) == Some(
            (now + SESSION_TIME) as i64,
        ),
        forall|other: Seq<char>|
            other != session_collection() ==> guard_run(db, cookie_header, now).0.documents(other)
                == db.documents(other),
{
    reveal_with_fuel(guard_driven, 3);
    lemma_field_names();
    let name = session_collection();
    let present = db.documents(name);
    let value = ValueView::Text(token);
    let until = (now + SESSION_TIME) as i64;
    let flags = match_flags(present, token_field(), value);
    lemma_first_true(flags);
    let index = first_true(flags);
    assert(present.len() > 0);
    lemma_found_is_present(db, name);
    let lookup = store_step(db, lookup_request(token));
    assert(lookup.0 == db);
    assert(guard_event_of(lookup.1) == Some(GuardEventView::Found { expires_at }));
    let write = extend_request(token, until);
    let extended = store_step(db, write);
    let mutation = MutationView::SetField { name: expiry_field(), value: ValueView::Int(until) };
    let after = updated(present, token_field(), value, mutation);
    assert(extended.0 == db.with_documents(name, after));
    assert(guard_event_of(extended.1) == Some(GuardEventView::Written));
    assert(guard_run(db, cookie_header, now) == (extended.0, Some(true)));
    lemma_with_documents(db, name, after, name);
    assert forall|other: Seq<char>| other != name implies extended.0.documents(other)
        == db.documents(other) by {
        lemma_with_documents(db, name, after, other);
    }
    let flags_after = match_flags(after, token_field(), value);
    assert forall|j: int| 0 <= j < present.len() implies flags_after[j] == flags[j] by {
        if is_match(present[j], token_field(), value) {
            lemma_with_field_other(
                present[j],
                expiry_field(),
                ValueView::Int(until),
                token_field(),
            );
        }
    }
    assert(flags_after =~= flags);
    assert(flags[index]);
    assert(after[index] == with_field(session, expiry_field(), ValueView::Int(until)));
    lemma_with_field_position(session, expiry_field(), ValueView::Int(until));
}

/// A request whose session expired before the request is rejected, and the
/// store stays as it is: the session is not brought back.
pub proof fn expired_session_is_rejected(
    db: StoreView,
    cookie_header: Option<Seq<char>>,
    token: Seq<char>,
    session: Seq<FieldView>,
    expires_at: i64,
    now: i64,
)
    requires
        session_token(cookie_header) == Some(token),
        session_of(db, token) == Some(session),
        expiry_of(session) == Some(expires_at),
        expires_at < now,
    ensures
        guard_run(db, cookie_header, now) == (db, Some(false)),
{
    reveal_with_fuel(guard_driven, 3);
    let name = session_collection();
    let flags = match_flags(db.documents(name), token_field(), ValueView::Text(token));
    lemma_first_true(flags);
    assert(db.documents(name).len() > 0);
    lemma_found_is_present(db, name);
    let lookup = store_step(db, lookup_request(token));
    assert(lookup.0 == db);
    assert(guard_event_of(lookup.1) == Some(GuardEventView::Found { expires_at }));
}

/// A request whose token no session has is rejected, and no document
/// changes.
pub proof fn unknown_session_is_rejected(
    db: StoreView,
    cookie_header: Option<Seq<char>>,
    token: Seq<char>,
    now: i64,
)
    requires
        session_token(cookie_header) == Some(token),
        session_of(db, token) is None,
    ensures
        guard_run(db, cookie_header, now).1 == Some(false),
        guard_run(db, cookie_header, now).0 == db.opened(session_collection()),
        forall|other: Seq<char>|
            guard_run(db, cookie_header, now).0.documents(other) == db.documents(other),
{
    reveal_with_fuel(guard_driven, 3);
    let name = session_collection();
    lemma_opened(db, name, name);
    let lookup = store_step(db, lookup_request(token));
    assert(lookup.0 == db.opened(name));
    assert(guard_event_of(lookup.1) == Some(GuardEventView::Missing));
    assert forall|other: Seq<char>| db.opened(name).documents(other) == db.documents(other) by {
        lemma_opened(db, name, other);
    }
}

/// Whether a request with this `Cookie` header has, at the time `now`, a
/// session that has not expired and whose new expiry can be written.
pub open spec fn has_live_session(
    db: StoreView,
    cookie_header: Option<Seq<char>>,
    now: i64,
) -> bool {
    &&& session_token(cookie_header) matches Some(token)
    &&& session_of(db, token) matches Some(session)
    &&& expiry_of(session) matches Some(expires_at)
    &&& now <= expires_at
    &&& now + SESSION_TIME <= i64::MAX
}

/// The guard admits a request exactly when the request has a live session,
/// and it comes to a verdict unless the session that the store finds holds no
/// integer expiry.
pub proof fn guard_admits_exactly_live_sessions(
    db: StoreView,
    cookie_header: Option<Seq<char>>,
    now: i64,
)
    ensures
        guard_run(db, cookie_header, now).1 == Some(true) <==> has_live_session(
            db,
            cookie_header,
            now,
        ),
        guard_run(db, cookie_header, now).1 is None <==> {
            &&& session_token(cookie_header) matches Some(token)
            &&& session_of(db, token) matches Some(session)
            &&& expiry_of(session) is None
        },
{
    reveal_with_fuel(guard_driven, 3);
    match session_token(cookie_header) {
        Some(token) => {
            let name = session_collection();
            lemma_opened(db, name, name);
            let lookup = store_step(db, lookup_request(token));
            assert(lookup.0 == db.opened(name));
            match session_of(db, token) {
                Some(session) => {
                    match expiry_of(session) {
                        Some(expires_at) => {
                            if now <= expires_at && now + SESSION_TIME <= i64::MAX {
                                live_session_is_admitted_and_extended(
                                    db,
                                    cookie_header,
                                    token,
                                    session,
                                    expires_at,
                                    now,
                                );
                            } else {
                                assert(guard_event_of(lookup.1) == Some(
                                    GuardEventView::Found { expires_at },
                                ));
                            }
                        },
                        None => {
                            assert(guard_event_of(lookup.1) is None);
                        },
                    }
                },
                None => {
                    unknown_session_is_rejected(db, cookie_header, token, now);
                },
            }
        },
        None => {},
    }
}

/// A search finds exactly the documents of the collection whose field has
/// the value: every document that it gives is one of them, and each of them
/// is given.
pub proof fn search_finds_exactly_the_matches(
    documents: Seq<Seq<FieldView>>,
    field: Seq<char>,
    value: ValueView,
    document: Seq<FieldView>,
)
    ensures
        matching(documents, field, value).contains(document) <==> documents.contains(document)
            && is_match(document, field, value),
    decreases documents.len(),
{
    let found = matching(documents, field, value);
    if documents.len() > 0 {
        let before = documents.drop_last();
        let last = documents.last();
        search_finds_exactly_the_matches(before, field, value, document);
        let found_before = matching(before, field, value);
        if found.contains(document) {
            let i = choose|i: int| 0 <= i < found.len() && found[i] == document;
            if i < found_before.len() {
                assert(found_before[i] == document);
                let j = choose|j: int| 0 <= j < before.len() && before[j] == document;
                assert(documents[j] == document);
            } else {
                assert(documents[documents.len() - 1] == document);
            }
        }
        if documents.contains(document) && is_match(document, field, value) {
            let j = choose|j: int| 0 <= j < documents.len() && documents[j] == document;
            if j < before.len() {
                assert(before[j] == document);
                let i = choose|i: int| 0 <= i < found_before.len() && found_before[i] == document;
                assert(found[i] == document);
            } else {
                assert(found[found.len() - 1] == document);
            }
        }
    }
}

/// No update changes the identifier of a document: a document that stays has
/// after the update the identifier that it had before.
pub proof fn update_keeps_identifiers(
    db: StoreView,
    collection: Seq<char>,
    field: Seq<char>,
    value: ValueView,
    mutation: MutationView,
    place: int,
)
    requires
        db.wf(),
        !(mutation is Remove),
        0 <= place < db.documents(collection).len(),
    ensures
        store_step(db, StoreRequestView::Update { collection, field, value, mutation }).0.documents(
            collection,
        ).len() == db.documents(collection).len(),
        field_value(
            store_step(
                db,
                StoreRequestView::Update { collection, field, value, mutation },
            ).0.documents(collection)[place],
            id_name(),
        ) == field_value(db.documents(collection)[place], id_name()),
{
    let present = db.documents(collection);
    lemma_opened(db, collection, collection);
    lemma_first_true(collection_flags(db.collections, collection));
    assert(carries_id(db.collections[db.slot(collection)].documents[place], db.next_id));
    let number = choose|number: nat|
        number < db.next_id && #[trigger] starts_with_id(present[place], number);
    if !touches_id(mutation) {
        let after = updated(present, field, value, mutation);
        lemma_with_documents(db, collection, after, collection);
        if is_match(present[place], field, value) {
            match mutation {
                MutationView::SetField { name, value: to } => {
                    lemma_with_field_keeps_id(present[place], name, to, number);
                },
                MutationView::SetFields { fields } => {
                    lemma_merged_keeps_id(present[place], fields, number);
                },
                MutationView::Remove => {},
            }
        }
        lemma_position_is(present[place], id_name(), 0);
        lemma_position_is(after[place], id_name(), 0);
    }
}

/// A request changes no collection but its own. Its own collection is there
/// afterwards, and no collection ever goes away.
pub proof fn other_collections_stay(db: StoreView, request: StoreRequestView, other: Seq<char>)
    ensures
        other != request.collection() ==> store_step(db, request).0.documents(other)
            == db.documents(other),
        db.has_collection(other) ==> store_step(db, request).0.has_collection(other),
        store_step(db, request).0.has_collection(request.collection()),
{
    let name = request.collection();
    let open = db.opened(name);
    let after = store_step(db, request).0;
    lemma_opened(db, name, name);
    lemma_opened(db, name, other);
    let present = open.documents(name);
    let changed = match request {
        StoreRequestView::Insert { document, .. } => present.push(stored(document, db.next_id)),
        StoreRequestView::InsertMany { documents, .. } => present + stored_all(
            documents,
            db.next_id,
        ),
        StoreRequestView::Update { field, value, mutation, .. } => updated(
            present,
            field,
            value,
            mutation,
        ),
        _ => present,
    };
    lemma_with_documents(open, name, changed, other);
    lemma_with_documents(open, name, changed, name);
}

/// Whether every document of the store holds each name once.
pub open spec fn names_distinct(db: StoreView) -> bool {
    forall|c: int, d: int|
        0 <= c < db.collections.len() && 0 <= d < db.collections[c].documents.len()
            ==> distinct_names(#[trigger] db.collections[c].documents[d])
}

/// Whether every document that the request brings holds each name once.
pub open spec fn brings_distinct_names(request: StoreRequestView) -> bool {
    match request {
        StoreRequestView::Insert { document, .. } => distinct_names(document),
        StoreRequestView::InsertMany { documents, .. } => forall|k: int|
            0 <= k < documents.len() ==> distinct_names(#[trigger] documents[k]),
        _ => true,
    }
}

/// A store whose documents hold each name once stays so, as long as the
/// documents that it is given hold each name once.
pub proof fn store_keeps_names_distinct(db: StoreView, request: StoreRequestView)
    requires
        names_distinct(db),
        brings_distinct_names(request),
    ensures
        names_distinct(store_step(db, request).0),
{
    let name = request.collection();
    let open = db.opened(name);
    let present = open.documents(name);
    let after = store_step(db, request).0;
    lemma_opened(db, name, name);
    lemma_first_true(collection_flags(open.collections, name));
    let slot = open.slot(name);
    assert forall|c: int, d: int|
        0 <= c < open.collections.len() && 0 <= d < open.collections[c].documents.len()
            implies distinct_names(#[trigger] open.collections[c].documents[d]) by {
        if c < db.collections.len() {
            assert(open.collections[c] == db.collections[c]);
        }
    }
    assert forall|d: int| 0 <= d < present.len() implies distinct_names(#[trigger] present[d]) by {
        assert(distinct_names(open.collections[slot].documents[d]));
    }
    if after != open {
        assert forall|c: int, d: int|
            0 <= c < after.collections.len() && 0 <= d < after.collections[c].documents.len()
                implies distinct_names(#[trigger] after.collections[c].documents[d]) by {
            let document = after.collections[c].documents[d];
            if c != slot {
                assert(after.collections[c] == open.collections[c]);
            } else {
                match request {
                    StoreRequestView::Insert { document: added, .. } => {
                        if d >= present.len() {
                            lemma_stored_distinct(added, db.next_id);
                        } else {
                            assert(document == present[d]);
                        }
                    },
                    StoreRequestView::InsertMany { documents: added, .. } => {
                        if d >= present.len() {
                            let k = d - present.len();
                            lemma_first_true(id_flags(added));
                            assert(!id_flags(added)[k]);
                            lemma_stored_distinct(added[k], (db.next_id + k) as nat);
                        } else {
                            assert(document == present[d]);
                        }
                    },
                    StoreRequestView::Update { field, value, mutation, .. } => {
                        if mutation is Remove {
                            lemma_remaining_none_match(present, field, value);
                            let j = choose|j: int| 0 <= j < present.len() && present[j] == document;
                            assert(distinct_names(present[j]));
                        } else if is_match(present[d], field, value) {
                            match mutation {
                                MutationView::SetField { name: set, value: to } => {
                                    lemma_with_field_distinct(present[d], set, to);
                                },
                                MutationView::SetFields { fields } => {
                                    lemma_merged_distinct(present[d], fields);
                                },
                                MutationView::Remove => {},
                            }
                        }
                    },
                    _ => {},
                }
            }
        }
    }
}

/// A document that holds each name once, and no identifier, holds each name
/// once as the store keeps it.
proof fn lemma_stored_distinct(document: Seq<FieldView>, number: nat)
    requires
        distinct_names(document),
        !has_field(document, id_name()),
    ensures
        distinct_names(stored(document, number)),
{
    lemma_position(document, id_name());
    let kept = stored(document, number);
    assert forall|i: int, j: int| 0 <= i < j < kept.len() implies (#[trigger] kept[i]).name != (
    #[trigger] kept[j]).name by {
        assert(kept[j] == document[j - 1]);
        if i > 0 {
            assert(kept[i] == document[i - 1]);
        }
    }
}

/// A read by identifier finds one document or none, and is no error either
/// way.
pub proof fn read_by_id_finds_at_most_one(db: StoreView, collection: Seq<char>, id: Seq<char>)
    requires
        db.wf(),
    ensures
        served(db, read_doc_request(collection, id)).1 matches Ok(
            ServiceResponseView::Documents(found),
        ) && found.len() <= 1,
{
    let open = db.opened(collection);
    lemma_opened(db, collection, collection);
    lemma_first_true(collection_flags(open.collections, collection));
    assert(matching(
        open.collections[open.slot(collection)].documents,
        id_name(),
        ValueView::Text(id),
    ).len() <= 1);
}

/// A document that was inserted is read back by the identifier that the
/// insert returned: the read gives that one document, which holds the
/// identifier and after it exactly the inserted fields.
pub proof fn inserted_document_reads_back(
    db: StoreView,
    collection: Seq<char>,
    document: Seq<FieldView>,
    id: Seq<char>,
)
    requires
        db.wf(),
        served(db, StoreRequestView::Insert { collection, document }).1 == Ok::<
            ServiceResponseView,
            ServiceError,
        >(ServiceResponseView::Text(id)),
    ensures
        served(
            served(db, StoreRequestView::Insert { collection, document }).0,
            read_doc_request(collection, id),
        ) == (
            served(db, StoreRequestView::Insert { collection, document }).0,
            Ok::<ServiceResponseView, ServiceError>(
                ServiceResponseView::Documents(
                    seq![
                        seq![FieldView { name: id_name(), value: ValueView::Text(id) }] + document,
                    ],
                ),
            ),
        ),
{
    let open = db.opened(collection);
    let present = open.documents(collection);
    let kept = stored(document, db.next_id);
    let after = served(db, StoreRequestView::Insert { collection, document }).0;
    lemma_opened(db, collection, collection);
    lemma_with_documents(open, collection, present.push(kept), collection);
    assert(id == id_text(db.next_id));
    assert(after.has_collection(collection));
    assert(after.opened(collection) == after);
    let all = after.documents(collection);
    assert(all == present.push(kept));
    lemma_first_true(collection_flags(open.collections, collection));
    assert forall|j: int| 0 <= j < all.len() implies (is_match(
        #[trigger] all[j],
        id_name(),
        ValueView::Text(id),
    ) <==> j == present.len()) by {
        if j < present.len() {
            assert(carries_id(open.collections[open.slot(collection)].documents[j], open.next_id));
            let number = choose|number: nat|
                number < db.next_id && #[trigger] starts_with_id(present[j], number);
            lemma_stored_id(present[j], number, db.next_id);
        } else {
            lemma_stored_id(kept, db.next_id, db.next_id);
        }
    }
    lemma_matching_single(all, present.len() as int, id_name(), ValueView::Text(id));
}

/// Every document that an insert of many documents added is read back by the
/// identifier that the insert returned for it: there are as many identifiers
/// as documents, and the read by the identifier at a place gives the document
/// at that place, with the identifier before its fields.
pub proof fn inserted_documents_read_back(
    db: StoreView,
    collection: Seq<char>,
    documents: Seq<Seq<FieldView>>,
    ids: Seq<Seq<char>>,
    k: int,
)
    requires
        db.wf(),
        served(db, StoreRequestView::InsertMany { collection, documents }).1 == Ok::<
            ServiceResponseView,
            ServiceError,
        >(ServiceResponseView::Ids(ids)),
        0 <= k < documents.len(),
    ensures
        ids.len() == documents.len(),
        served(
            served(db, StoreRequestView::InsertMany { collection, documents }).0,
            read_doc_request(collection, ids[k]),
        ) == (
            served(db, StoreRequestView::InsertMany { collection, documents }).0,
            Ok::<ServiceResponseView, ServiceError>(
                ServiceResponseView::Documents(
                    seq![
                        seq![FieldView { name: id_name(), value: ValueView::Text(ids[k]) }]
                            + documents[k],
                    ],
                ),
            ),
        ),
{
    let open = db.opened(collection);
    let present = open.documents(collection);
    let kept = stored_all(documents, db.next_id);
    let after = served(db, StoreRequestView::InsertMany { collection, documents }).0;
    lemma_opened(db, collection, collection);
    lemma_with_documents(open, collection, present + kept, collection);
    assert(ids == id_texts(db.next_id, documents.len()));
    assert(after.has_collection(collection));
    assert(after.opened(collection) == after);
    let all = after.documents(collection);
    assert(all == present + kept);
    let wanted = (db.next_id + k) as nat;
    assert(ids[k] == id_text(wanted));
    lemma_first_true(collection_flags(open.collections, collection));
    assert forall|j: int| 0 <= j < all.len() implies (is_match(
        #[trigger] all[j],
        id_name(),
        ValueView::Text(ids[k]),
    ) <==> j == present.len() + k) by {
        if j < present.len() {
            assert(carries_id(open.collections[open.slot(collection)].documents[j], open.next_id));
            let number = choose|number: nat|
                number < db.next_id && #[trigger] starts_with_id(present[j], number);
            lemma_stored_id(present[j], number, wanted);
        } else {
            let at = j - present.len();
            assert(all[j] == kept[at]);
            lemma_stored_id(kept[at], (db.next_id + at) as nat, wanted);
        }
    }
    lemma_matching_single(all, present.len() + k, id_name(), ValueView::Text(ids[k]));
    assert(all[present.len() + k] == kept[k]);
}

/// Patching one field of a document a second time, with the same field and
/// the same value, leaves the store as the first patch left it and gets the
/// same answer.
pub proof fn patch_is_idempotent(
    db: StoreView,
    collection: Seq<char>,
    id: Seq<char>,
    name: Seq<char>,
    value: ValueView,
)
    ensures
        served(
            served(db, insert_field_request(collection, id, name, value)).0,
            insert_field_request(collection, id, name, value),
        ) == served(db, insert_field_request(collection, id, name, value)),
{
    let request = insert_field_request(collection, id, name, value);
    let mutation = MutationView::SetField { name, value };
    let wanted = ValueView::Text(id);
    let open = db.opened(collection);
    let present = open.documents(collection);
    let once = store_step(db, request).0;
    lemma_opened(db, collection, collection);
    if name != id_name() {
        let patched = updated(present, id_name(), wanted, mutation);
        lemma_with_documents(open, collection, patched, collection);
        assert(once.opened(collection) == once);
        assert forall|j: int| 0 <= j < present.len() implies is_match(
            #[trigger] patched[j],
            id_name(),
            wanted,
        ) == is_match(present[j], id_name(), wanted) by {
            if is_match(present[j], id_name(), wanted) {
                lemma_with_field_other(present[j], name, value, id_name());
            }
        }
        assert forall|j: int| 0 <= j < present.len() implies updated(
            patched,
            id_name(),
            wanted,
            mutation,
        )[j] == patched[j] by {
            if is_match(present[j], id_name(), wanted) {
                lemma_with_field_twice(present[j], name, value);
            }
        }
        assert(updated(patched, id_name(), wanted, mutation) =~= patched);
        lemma_matching_count(patched, present, id_name(), wanted);
        lemma_first_true(collection_flags(open.collections, collection));
        assert(once.with_documents(collection, patched).collections =~= once.collections);
    } else {
        assert(once == open);
        assert(open.opened(collection) == open);
    }
}

/// Deleting a document a second time leaves the store as the first delete
/// left it: either way no document with that identifier is there, and
/// neither delete is an error.
pub proof fn delete_is_idempotent(db: StoreView, collection: Seq<char>, id: Seq<char>)
    ensures
        served(
            served(db, delete_doc_request(collection, id)).0,
            delete_doc_request(collection, id),
        ).0 == served(db, delete_doc_request(collection, id)).0,
        served(db, delete_doc_request(collection, id)).1 is Ok,
        served(
            served(db, delete_doc_request(collection, id)).0,
            delete_doc_request(collection, id),
        ).1 == served(db, delete_doc_request(collection, id)).1,
        served(
            served(db, delete_doc_request(collection, id)).0,
            read_doc_request(collection, id),
        ).1 == Ok::<ServiceResponseView, ServiceError>(
            ServiceResponseView::Documents(Seq::empty()),
        ),
{
    let wanted = ValueView::Text(id);
    let open = db.opened(collection);
    let present = open.documents(collection);
    let kept = remaining(present, id_name(), wanted);
    let once = store_step(db, delete_doc_request(collection, id)).0;
    lemma_opened(db, collection, collection);
    lemma_with_documents(open, collection, kept, collection);
    assert(once.opened(collection) == once);
    lemma_remaining_none_match(present, id_name(), wanted);
    lemma_matching_none(kept, id_name(), wanted);
    assert(matching(kept, id_name(), wanted) =~= Seq::empty());
    lemma_first_true(collection_flags(open.collections, collection));
    assert(once.with_documents(collection, kept).collections =~= once.collections);
}

} // verus!
