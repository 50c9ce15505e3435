//! The backend: the single authority over the block store, the lock
//! table and the document cache.
//!
//! Collaborators submit one `Operation` at a time; the backend
//! executes it against the store and returns a `Response` or an
//! `OperationError`. Lock acquisitions do not block the backend: an
//! `Acquire` is registered under the requester's waiter handle and
//! the grant may be delivered later, when a conflicting holder
//! releases.
use crate::archive_parser::{field_ids, spec_read_document, ArchiveParser, ParseError};
use crate::block_store::{find_block, next_live, BlockStore, SpecBlock, StoreError};
use crate::document_serialize::{doc_encodable, ser_document, ser_instances};
use crate::lock::{can_release, compatible, spec_grant, spec_initial_state, spec_release,
    state_count, Lock, LockType};
use crate::query::{spec_evaluate, Condition, OperationError, Query, SpecEvalError};
use crate::schema::{
    instance_views, lemma_schema_views_index, schema_view, schema_views, Document, FieldInstance,
    Schema, SpecDocument, SpecSchema,
};
use std::collections::HashMap;
use vstd::prelude::*;

verus! {

/// A pointer to a stored document: the schema it conforms to and the
/// position of its block in the store.
///
/// Valid from creation until the referenced block is deleted; a
/// reference must not be reused after the delete.
#[derive(Debug, PartialEq)]
pub struct Reference {
    /// The schema describing the document pointed to.
    pub schema: Schema,
    /// The store position at which the document's block lies.
    pub position: usize,
}

/// An operation for the backend to execute.
pub enum Operation {
    /// Find the first stored document of a collection matching a
    /// query. Answered with `Response::Selection`.
    FindOne { query: Query },
    /// Wait for a lock on a stored document, under the requester's
    /// waiter handle. Answered with `Response::Complete`, possibly later.
    Acquire { selection: Reference, lock: LockType, waiter: u64 },
    /// Store a new document. Answered with `Response::Selection`.
    Create { document: Document },
    /// Read the fields with the given identifiers of a stored
    /// document. Answered with `Response::Document`.
    Read { selection: Reference, fields: Vec<u16> },
    /// Replace the fields of a stored document. Answered with
    /// `Response::Complete`.
    Update { selection: Reference, fields: Vec<FieldInstance> },
    /// Tombstone a stored document. Answered with `Response::Complete`.
    Delete { selection: Reference },
    /// Release a held lock on a stored document. Answered with
    /// `Response::Complete`.
    Release { selection: Reference, lock: LockType },
}

/// A successful answer to an operation.
pub enum Response {
    /// A pointer to a stored document.
    Selection(Reference),
    /// A decoded document.
    Document(Document),
    /// Plain success.
    Complete,
}

impl Response {
    /// The reference inside, when this answer carries one.
    pub fn get_selection(self) -> (r: Option<Reference>)
        ensures
            match self {
                Response::Selection(s) => r matches Some(s2) && s2 == s,
                _ => r is None,
            },
    {
        match self {
            Response::Selection(s) => Some(s),
            _ => None,
        }
    }

    /// The document inside, when this answer carries one.
    pub fn get_document(self) -> (r: Option<Document>)
        ensures
            match self {
                Response::Document(d) => r matches Some(d2) && d2 == d,
                _ => r is None,
            },
    {
        match self {
            Response::Document(d) => Some(d),
            _ => None,
        }
    }

    /// Whether this answer is plain success.
    pub fn get_ok(self) -> (r: Option<()>)
        ensures
            r is Some <==> self is Complete,
    {
        match self {
            Response::Complete => Some(()),
            _ => None,
        }
    }
}

/// The first schema with the given collection identifier, if any.
pub open spec fn spec_find_schema(schemas: Seq<SpecSchema>, id: u64) -> Option<SpecSchema>
    decreases schemas,
{
    if schemas.len() == 0 {
        None
    } else if schemas[0].id == id {
        Some(schemas[0])
    } else {
        spec_find_schema(schemas.drop_first(), id)
    }
}

/// The core of the engine's read/write logic.
///
/// Owns the block store, the registered collection schemas, the
/// per-position lock table, and an opportunistic position-to-document
/// cache filled during scans.
pub struct Backend {
    /// The block store holding every document.
    pub io: BlockStore,
    /// The schemas of the collections this engine serves.
    pub collections: Vec<Schema>,
    /// The last document decoded at each position during a scan.
    pub document_cache: HashMap<usize, Document>,
    /// The lock table: one lock per acquired position.
    pub locks: HashMap<usize, Lock>,
}

impl Backend {
    /// The store's bytes parse as a run of blocks.
    pub open spec fn wf(&self) -> bool {
        self.io.wf()
    }

    /// The blocks currently in the store.
    pub open spec fn blocks(&self) -> Seq<SpecBlock> {
        self.io.blocks()
    }

    /// Creates a backend over an empty store, serving `collections`.
    pub fn new(collections: Vec<Schema>) -> (r: Self)
        ensures
            r.wf(),
            r.blocks() == Seq::<SpecBlock>::empty(),
            r.collections == collections,
            r.document_cache@ == Map::<usize, Document>::empty(),
            r.locks@ == Map::<usize, Lock>::empty(),
    {
        Backend {
            io: BlockStore::new(),
            collections,
            document_cache: HashMap::new(),
            locks: HashMap::new(),
        }
    }

    /// Looks up the registered schema of the collection with `id`.
    fn find_collection(&self, id: u64) -> (r: Option<&Schema>)
        ensures
            match r {
                Some(s) => spec_find_schema(schema_views(self.collections@), id) == Some(s@),
                None => spec_find_schema(schema_views(self.collections@), id) is None,
            },
    {
        let n = self.collections.len();
        let mut k: usize = 0;
        proof {
            assert(self.collections@.skip(0) =~= self.collections@);
        }
        while k < n
            invariant
                n == self.collections@.len(),
                0 <= k <= n,
                spec_find_schema(schema_views(self.collections@), id) == spec_find_schema(
                    schema_views(self.collections@.skip(k as int)),
                    id,
                ),
            decreases n - k,
        {
            proof {
                broadcast use lemma_schema_views_index;

                assert(schema_views(self.collections@.skip(k as int)).len() == n - k);
                assert(self.collections@.skip(k as int)[0] == self.collections@[k as int]);
                assert(schema_views(self.collections@.skip(k as int))[0] == schema_view(
                    self.collections@[k as int],
                ));
            }
            if self.collections[k].id == id {
                return Some(&self.collections[k]);
            }
            proof {
                assert(schema_views(self.collections@.skip(k as int)).drop_first()
                    =~= schema_views(self.collections@.skip(k + 1))) by {
                    assert(self.collections@.skip(k as int).drop_first() =~= self.collections@.skip(
                        k + 1,
                    ));
                }
            }
            k = k + 1;
        }
        proof {
            assert(self.collections@.skip(n as int) =~= Seq::<Schema>::empty());
        }
        None
    }

    /// Serializes a document and appends it as a new live block.
    ///
    /// Returns a reference to the stored document.
    pub fn create(&mut self, document: Document) -> (r: Result<Reference, OperationError>)
        requires
            old(self).wf(),
            doc_encodable(document@),
            old(self).io.bytes@.len() + 9 + ser_document(document@).len() <= usize::MAX,
        ensures
            final(self).wf(),
            final(self).collections == old(self).collections,
            final(self).locks == old(self).locks,
            final(self).document_cache == old(self).document_cache,
            final(self).blocks() == old(self).blocks().push(
                SpecBlock {
                    pos: old(self).io.bytes@.len() as int + 9,
                    live: true,
                    payload: ser_document(document@),
                },
            ),
            r matches Ok(reference) && reference.position as int == old(self).io.bytes@.len() + 9
                && reference.schema@ == document@.schema,
    {
        let ghost dv = document@;
        let reference_schema = document.schema.clone();
        let bytes = document.serialize();
        let position = self.io.write_block(bytes);
        Ok(Reference { schema: reference_schema, position })
    }

    /// Tombstones the block a reference points to.
    pub fn delete(&mut self, selection: &Reference) -> (r: Result<(), OperationError>)
        requires
            old(self).wf(),
        ensures
            final(self).wf(),
            final(self).collections == old(self).collections,
            final(self).locks == old(self).locks,
            final(self).document_cache == old(self).document_cache,
            match find_block(old(self).blocks(), selection.position as int) {
                Some(j) => {
                    &&& r is Ok
                    &&& final(self).io.bytes@ == crate::block_store::delete_bytes(
                        old(self).io.bytes@,
                        selection.position as int,
                    )
                    &&& final(self).io.bytes@.len() == old(self).io.bytes@.len()
                    &&& final(self).blocks() == old(self).blocks().update(
                        j,
                        SpecBlock {
                            pos: old(self).blocks()[j].pos,
                            live: false,
                            payload: old(self).blocks()[j].payload,
                        },
                    )
                },
                None => final(self).io.bytes == old(self).io.bytes && (r matches Err(e) && e
                    matches OperationError::IOError(se) && se == StoreError::InvalidPosition),
            },
    {
        let ghost bs = self.blocks();
        proof {
            if find_block(bs, selection.position as int) is Some {
                crate::block_store::lemma_find_block_valid(bs, selection.position as int);
                crate::block_store::lemma_parse_blocks_index(
                    self.io.bytes@,
                    0,
                    find_block(bs, selection.position as int)->Some_0,
                );
            }
        }
        match self.io.remove_block(selection.position) {
            Ok(_) => Ok(()),
            Err(e) => Err(OperationError::IOError(e)),
        }
    }

    /// Reads the block a reference points to and decodes it,
    /// materializing only the fields with the given identifiers.
    pub fn read(&self, selection: Reference, fields: Vec<u16>) -> (r: Result<
        Document,
        OperationError,
    >)
        requires
            self.wf(),
        ensures
            match find_block(self.blocks(), selection.position as int) {
                Some(j) => match spec_read_document(
                    selection.schema@,
                    fields@,
                    self.blocks()[j].payload,
                ) {
                    Ok(sd) => r matches Ok(d) && d@ == sd,
                    Err(pe) => r matches Err(e) && (e matches OperationError::ParseError(p) && p
                        == pe),
                },
                None => r matches Err(e) && (e matches OperationError::IOError(se) && se
                    == StoreError::InvalidPosition),
            },
    {
        let block = match self.io.read_at_position(selection.position) {
            Ok(b) => b,
            Err(e) => {
                return Err(OperationError::IOError(e));
            },
        };
        let mut parser = ArchiveParser::new(selection.schema, block, fields);
        match parser.read_document() {
            Ok(d) => Ok(d),
            Err(e) => Err(OperationError::ParseError(e)),
        }
    }

    /// Registers a lock request on the referenced position under the
    /// requester's waiter handle.
    ///
    /// Returns whether the lock was granted immediately; when it was
    /// not, the request waits in FIFO order and the grant is
    /// delivered by a later release.
    pub fn acquire(&mut self, selection: &Reference, lock: LockType, waiter: u64) -> (granted:
        bool)
        requires
            old(self).locks@.contains_key(selection.position) ==> state_count(
                old(self).locks@[selection.position].state,
            ) < u64::MAX,
        ensures
            final(self).io == old(self).io,
            final(self).collections == old(self).collections,
            final(self).document_cache == old(self).document_cache,
            if old(self).locks@.contains_key(selection.position) {
                let entry = old(self).locks@[selection.position];
                &&& granted == compatible(entry.state, lock)
                &&& final(self).locks@.contains_key(selection.position)
                &&& final(self).locks@ =~= old(self).locks@.insert(
                    selection.position,
                    final(self).locks@[selection.position],
                )
                &&& (granted ==> final(self).locks@[selection.position].state == spec_grant(
                    entry.state,
                    lock,
                ) && final(self).locks@[selection.position].waiting == entry.waiting)
                &&& (!granted ==> final(self).locks@[selection.position].state == entry.state
                    && final(self).locks@[selection.position].waiting@ == entry.waiting@.push(
                    (waiter, lock),
                ))
            } else {
                &&& granted
                &&& final(self).locks@.contains_key(selection.position)
                &&& final(self).locks@ =~= old(self).locks@.insert(
                    selection.position,
                    final(self).locks@[selection.position],
                )
                &&& final(self).locks@[selection.position].state == spec_initial_state(lock)
                &&& final(self).locks@[selection.position].waiting@ == Seq::<(u64, LockType)>::empty()
            },
    {
        match self.locks.remove(&selection.position) {
            Some(mut current) => {
                let granted = current.queue(waiter, lock);
                self.locks.insert(selection.position, current);
                granted
            },
            None => {
                let entry = Lock::new(lock);
                self.locks.insert(selection.position, entry);
                true
            },
        }
    }

    /// Releases one held lock on the referenced position.
    ///
    /// Returns the waiter handles granted by this release, in FIFO
    /// order; the caller delivers their notifications.
    pub fn release(&mut self, selection: &Reference, lock: LockType) -> (granted: Vec<u64>)
        requires
            old(self).locks@.contains_key(selection.position),
            can_release(old(self).locks@[selection.position].state, lock),
            old(self).locks@[selection.position].waiting@.len() + 2 <= u64::MAX,
        ensures
            final(self).io == old(self).io,
            final(self).collections == old(self).collections,
            final(self).document_cache == old(self).document_cache,
            ({
                let entry = old(self).locks@[selection.position];
                let outcome = spec_release(entry.state, entry.waiting@, lock);
                &&& granted@ == outcome.1
                &&& final(self).locks@.contains_key(selection.position)
                &&& final(self).locks@[selection.position].state == outcome.0
                &&& final(self).locks@[selection.position].waiting@ == outcome.2
                &&& final(self).locks@ =~= old(self).locks@.insert(
                    selection.position,
                    final(self).locks@[selection.position],
                )
            }),
    {
        let mut entry = match self.locks.remove(&selection.position) {
            Some(entry) => entry,
            None => {
                proof {
                    assert(false);
                }
                Lock::new(lock)
            },
        };
        let granted = entry.release(&lock);
        self.locks.insert(selection.position, entry);
        granted
    }
}

// ---------------------------------------------------------------------
// Scanning
// ---------------------------------------------------------------------
/// The outcome of scanning the store for the first live block of a
/// collection whose document matches a condition.
#[verifier::ext_equal]
pub enum SpecScanOutcome {
    /// The live block at this index decodes under the schema and its
    /// document matches.
    Found { index: int, doc: SpecDocument },
    /// A live block carried the collection's schema identifier but
    /// did not decode.
    ParseFailed(ParseError),
    /// A decoded document could not be evaluated.
    EvalFailed(SpecEvalError),
    /// The scan ran out of blocks without a match.
    Exhausted,
}

/// Scans the blocks from index `k` on: tombstones and blocks of other
/// collections are skipped; the first live block that decodes under
/// `schema` and matches `cond` wins.
pub open spec fn spec_scan(
    blocks: Seq<SpecBlock>,
    schema: SpecSchema,
    cond: crate::query::SpecCondition,
    k: int,
) -> SpecScanOutcome
    decreases crate::archive_parser::remaining(blocks.len() as int, k),
{
    if k < 0 || k >= blocks.len() {
        SpecScanOutcome::Exhausted
    } else if !blocks[k].live {
        spec_scan(blocks, schema, cond, k + 1)
    } else {
        match spec_read_document(schema, field_ids(schema.fields), blocks[k].payload) {
            Err(ParseError::SchemaMismatch) => spec_scan(blocks, schema, cond, k + 1),
            Err(e) => SpecScanOutcome::ParseFailed(e),
            Ok(doc) => match spec_evaluate(doc, cond) {
                Err(e) => SpecScanOutcome::EvalFailed(e),
                Ok(true) => SpecScanOutcome::Found { index: k, doc },
                Ok(false) => spec_scan(blocks, schema, cond, k + 1),
            },
        }
    }
}

/// When no live block lies at or past `k`, the scan is exhausted.
pub proof fn lemma_scan_exhausted(
    blocks: Seq<SpecBlock>,
    schema: SpecSchema,
    cond: crate::query::SpecCondition,
    k: int,
)
    requires
        next_live(blocks, k) is None,
    ensures
        spec_scan(blocks, schema, cond, k) == SpecScanOutcome::Exhausted,
    decreases crate::archive_parser::remaining(blocks.len() as int, k),
{
    if 0 <= k < blocks.len() {
        lemma_scan_exhausted(blocks, schema, cond, k + 1);
    }
}

/// The scan from `k` is the scan from the first live block at or past
/// `k`.
pub proof fn lemma_scan_skip_dead(
    blocks: Seq<SpecBlock>,
    schema: SpecSchema,
    cond: crate::query::SpecCondition,
    k: int,
)
    requires
        next_live(blocks, k) is Some,
    ensures
        0 <= next_live(blocks, k)->Some_0 < blocks.len(),
        k <= next_live(blocks, k)->Some_0,
        blocks[next_live(blocks, k)->Some_0].live,
        spec_scan(blocks, schema, cond, k) == spec_scan(
            blocks,
            schema,
            cond,
            next_live(blocks, k)->Some_0,
        ),
    decreases crate::archive_parser::remaining(blocks.len() as int, k),
{
    if 0 <= k < blocks.len() && !blocks[k].live {
        lemma_scan_skip_dead(blocks, schema, cond, k + 1);
    }
}

impl Backend {
    /// Scans the store from the start for the first live document of
    /// the queried collection matching the query's condition.
    ///
    /// Blocks whose leading schema identifier belongs to another
    /// collection are skipped; any other decode failure, or an
    /// evaluation failure, stops the scan with that error; running out
    /// of blocks yields the store's end-of-file error. On a match the
    /// decoded document is cached at its position.
    #[verifier::loop_isolation(false)]
    pub fn find_one(&mut self, query: &Query) -> (r: Result<Reference, OperationError>)
        requires
            old(self).wf(),
        ensures
            final(self).wf(),
            final(self).io.bytes == old(self).io.bytes,
            final(self).collections == old(self).collections,
            final(self).locks == old(self).locks,
            match spec_find_schema(schema_views(old(self).collections@), query.collection) {
                None => {
                    &&& r matches Err(e) && e is UnknownSchemaIdentifier
                    &&& final(self).document_cache == old(self).document_cache
                },
                Some(sv) => match spec_scan(old(self).blocks(), sv, query.condition@, 0) {
                    SpecScanOutcome::Found { index, doc } => {
                        &&& r matches Ok(reference) && reference.position as int == old(
                            self,
                        ).blocks()[index].pos && reference.schema@ == sv
                        &&& final(self).document_cache@.contains_key(
                            old(self).blocks()[index].pos as usize,
                        )
                        &&& final(self).document_cache@[old(self).blocks()[index].pos as usize]@
                            == doc
                        &&& final(self).document_cache@ =~= old(self).document_cache@.insert(
                            old(self).blocks()[index].pos as usize,
                            final(self).document_cache@[old(self).blocks()[index].pos as usize],
                        )
                    },
                    SpecScanOutcome::ParseFailed(pe) => {
                        &&& r matches Err(e) && (e matches OperationError::ParseError(p) && p
                            == pe)
                        &&& final(self).document_cache == old(self).document_cache
                    },
                    SpecScanOutcome::EvalFailed(se) => {
                        &&& r matches Err(e) && crate::query::op_error_matches(e, se)
                        &&& final(self).document_cache == old(self).document_cache
                    },
                    SpecScanOutcome::Exhausted => {
                        &&& r matches Err(e) && (e matches OperationError::IOError(ioe) && ioe
                            == StoreError::EndOfFile)
                        &&& final(self).document_cache == old(self).document_cache
                    },
                },
            },
    {
        let ghost bs = self.blocks();
        let ghost cond = query.condition@;
        let schema = match self.find_collection(query.collection) {
            Some(s) => s.clone(),
            None => {
                return Err(OperationError::UnknownSchemaIdentifier);
            },
        };
        let ghost sv = schema_view(schema);
        self.io.reset_position();
        loop
            invariant
                self.wf(),
                self.io.bytes == old(self).io.bytes,
                self.collections == old(self).collections,
                self.locks == old(self).locks,
                self.document_cache == old(self).document_cache,
                schema@ == sv,
                0 <= self.io.cursor_block@,
                spec_scan(bs, sv, cond, 0) == spec_scan(bs, sv, cond, self.io.cursor_block@),
            decreases bs.len() - self.io.cursor_block@,
        {
            let ghost k0 = self.io.cursor_block@;
            let (position, block) = match self.io.next() {
                Err(_) => {
                    proof {
                        lemma_scan_exhausted(bs, sv, cond, k0);
                    }
                    return Err(OperationError::IOError(StoreError::EndOfFile));
                },
                Ok(p) => p,
            };
            let ghost j = next_live(bs, k0)->Some_0;
            proof {
                lemma_scan_skip_dead(bs, sv, cond, k0);
            }
            let interest = crate::archive_parser::collect_field_ids(&schema);
            let parser_schema = schema.clone();
            let mut parser = ArchiveParser::new(parser_schema, block, interest);
            let document = match parser.read_document() {
                Err(ParseError::SchemaMismatch) => {
                    continue ;
                },
                Err(e) => {
                    return Err(OperationError::ParseError(e));
                },
                Ok(d) => d,
            };
            let matched = match document.evaluate(&query.condition) {
                Err(e) => {
                    return Err(e);
                },
                Ok(b) => b,
            };
            if matched {
                self.document_cache.insert(position, document);
                return Ok(Reference { schema, position });
            }
        }
    }

    /// Replaces the fields of a stored document: the old block is
    /// tombstoned, then a new document under the reference's schema is
    /// appended. The two steps are not atomic.
    pub fn update(&mut self, selection: Reference, fields: Vec<FieldInstance>) -> (r: Result<
        (),
        OperationError,
    >)
        requires
            old(self).wf(),
            crate::document_serialize::instances_encodable(instance_views(fields@)),
            8 + ser_instances(instance_views(fields@)).len() <= usize::MAX,
            old(self).io.bytes@.len() + 17 + ser_instances(instance_views(fields@)).len()
                <= usize::MAX,
        ensures
            final(self).wf(),
            final(self).collections == old(self).collections,
            final(self).locks == old(self).locks,
            final(self).document_cache == old(self).document_cache,
            match find_block(old(self).blocks(), selection.position as int) {
                None => final(self).blocks() == old(self).blocks() && (r matches Err(e) && e
                    matches OperationError::IOError(se) && se == StoreError::InvalidPosition),
                Some(j) => {
                    &&& r is Ok
                    &&& final(self).blocks() == old(self).blocks().update(
                        j,
                        SpecBlock {
                            pos: old(self).blocks()[j].pos,
                            live: false,
                            payload: old(self).blocks()[j].payload,
                        },
                    ).push(
                        SpecBlock {
                            pos: old(self).io.bytes@.len() as int + 9,
                            live: true,
                            payload: ser_document(
                                SpecDocument {
                                    schema: selection.schema@,
                                    fields: instance_views(fields@),
                                },
                            ),
                        },
                    )
                },
            },
    {
        match self.delete(&selection) {
            Err(e) => {
                return Err(e);
            },
            Ok(_) => {},
        }
        let replacement = Document { schema: selection.schema, fields };
        match self.create(replacement) {
            Err(e) => Err(e),
            Ok(_) => Ok(()),
        }
    }

    /// What an operation demands of the backend before it can run:
    /// the document of a `Create` or `Update` must fit the format and
    /// the machine, a `Release` must release something actually held,
    /// and an `Acquire` is handled by the caller's waiting machinery,
    /// never dispatched here.
    pub open spec fn op_requires(&self, operation: Operation) -> bool {
        &&& self.wf()
        &&& match operation {
            Operation::Acquire { .. } => false,
            Operation::Create { document } => doc_encodable(document@)
                && self.io.bytes@.len() + 9 + ser_document(document@).len() <= usize::MAX,
            Operation::Update { selection, fields } => {
                &&& crate::document_serialize::instances_encodable(instance_views(fields@))
                &&& 8 + ser_instances(instance_views(fields@)).len() <= usize::MAX
                &&& self.io.bytes@.len() + 17 + ser_instances(instance_views(fields@)).len()
                    <= usize::MAX
            },
            Operation::Release { selection, lock } => {
                &&& self.locks@.contains_key(selection.position)
                &&& can_release(self.locks@[selection.position].state, lock)
                &&& self.locks@[selection.position].waiting@.len() + 2 <= u64::MAX
            },
            _ => true,
        }
    }

    /// Executes one operation and answers it.
    ///
    /// `FindOne` and `Create` answer with a selection, `Read` with a
    /// document, and `Update`, `Delete` and `Release` with plain
    /// success; a `Release` additionally leaves the granted waiter
    /// handles with the caller through `release`, so callers that
    /// need them call `release` directly.
    pub fn execute_operation(&mut self, operation: Operation) -> (r: Result<
        Response,
        OperationError,
    >)
        requires
            old(self).op_requires(operation),
        ensures
            final(self).wf(),
            final(self).collections == old(self).collections,
            match operation {
                Operation::FindOne { query } => match spec_find_schema(
                    schema_views(old(self).collections@),
                    query.collection,
                ) {
                    None => r matches Err(e) && e is UnknownSchemaIdentifier,
                    Some(sv) => match spec_scan(old(self).blocks(), sv, query.condition@, 0) {
                        SpecScanOutcome::Found { index, doc } => r matches Ok(resp) && (resp
                            matches Response::Selection(reference) && reference.position as int
                            == old(self).blocks()[index].pos && reference.schema@ == sv),
                        SpecScanOutcome::ParseFailed(pe) => r matches Err(e) && (e matches
                            OperationError::ParseError(p) && p == pe),
                        SpecScanOutcome::EvalFailed(se) => r matches Err(e)
                            && crate::query::op_error_matches(e, se),
                        SpecScanOutcome::Exhausted => r matches Err(e) && (e matches
                            OperationError::IOError(ioe) && ioe == StoreError::EndOfFile),
                    },
                },
                Operation::Acquire { .. } => false,
                Operation::Create { document } => {
                    &&& final(self).blocks() == old(self).blocks().push(
                        SpecBlock {
                            pos: old(self).io.bytes@.len() as int + 9,
                            live: true,
                            payload: ser_document(document@),
                        },
                    )
                    &&& r matches Ok(resp) && (resp matches Response::Selection(reference)
                        && reference.position as int == old(self).io.bytes@.len() + 9
                        && reference.schema@ == document@.schema)
                },
                Operation::Read { selection, fields } => match find_block(
                    old(self).blocks(),
                    selection.position as int,
                ) {
                    Some(j) => match spec_read_document(
                        selection.schema@,
                        fields@,
                        old(self).blocks()[j].payload,
                    ) {
                        Ok(sd) => r matches Ok(resp) && (resp matches Response::Document(d) && d@
                            == sd),
                        Err(pe) => r matches Err(e) && (e matches OperationError::ParseError(p)
                            && p == pe),
                    },
                    None => r matches Err(e) && (e matches OperationError::IOError(se) && se
                        == StoreError::InvalidPosition),
                },
                Operation::Update { selection, fields } => match find_block(
                    old(self).blocks(),
                    selection.position as int,
                ) {
                    None => r matches Err(e) && (e matches OperationError::IOError(se) && se
                        == StoreError::InvalidPosition),
                    Some(j) => r matches Ok(resp) && resp is Complete && final(self).blocks()
                        == old(self).blocks().update(
                        j,
                        SpecBlock {
                            pos: old(self).blocks()[j].pos,
                            live: false,
                            payload: old(self).blocks()[j].payload,
                        },
                    ).push(
                        SpecBlock {
                            pos: old(self).io.bytes@.len() as int + 9,
                            live: true,
                            payload: ser_document(
                                SpecDocument {
                                    schema: selection.schema@,
                                    fields: instance_views(fields@),
                                },
                            ),
                        },
                    ),
                },
                Operation::Delete { selection } => match find_block(
                    old(self).blocks(),
                    selection.position as int,
                ) {
                    Some(j) => r matches Ok(resp) && resp is Complete && final(self).blocks()
                        == old(self).blocks().update(
                        j,
                        SpecBlock {
                            pos: old(self).blocks()[j].pos,
                            live: false,
                            payload: old(self).blocks()[j].payload,
                        },
                    ),
                    None => r matches Err(e) && (e matches OperationError::IOError(se) && se
                        == StoreError::InvalidPosition),
                },
                Operation::Release { selection, lock } => {
                    let entry = old(self).locks@[selection.position];
                    let outcome = spec_release(entry.state, entry.waiting@, lock);
                    &&& r matches Ok(resp) && resp is Complete
                    &&& final(self).locks@.contains_key(selection.position)
                    &&& final(self).locks@[selection.position].state == outcome.0
                    &&& final(self).locks@[selection.position].waiting@ == outcome.2
                },
            },
    {
        match operation {
            Operation::FindOne { query } => {
                match self.find_one(&query) {
                    Ok(selection) => Ok(Response::Selection(selection)),
                    Err(e) => Err(e),
                }
            },
            Operation::Acquire { selection: _, lock: _, waiter: _ } => {
                proof {
                    assert(false);
                }
                Err(OperationError::InvalidExpressionType)
            },
            Operation::Create { document } => {
                match self.create(document) {
                    Ok(selection) => Ok(Response::Selection(selection)),
                    Err(e) => Err(e),
                }
            },
            Operation::Read { selection, fields } => {
                match self.read(selection, fields) {
                    Ok(d) => Ok(Response::Document(d)),
                    Err(e) => Err(e),
                }
            },
            Operation::Update { selection, fields } => {
                match self.update(selection, fields) {
                    Ok(_) => Ok(Response::Complete),
                    Err(e) => Err(e),
                }
            },
            Operation::Delete { selection } => {
                match self.delete(&selection) {
                    Ok(_) => Ok(Response::Complete),
                    Err(e) => Err(e),
                }
            },
            Operation::Release { selection, lock } => {
                let _granted = self.release(&selection, lock);
                Ok(Response::Complete)
            },
        }
    }
}

} // verus!
