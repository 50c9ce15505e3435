//! The append-only block store.
//!
//! The store is a flat run of back-to-back blocks: one marker byte
//! (`0x45` live, `0x44` tombstoned), an 8-byte big-endian payload
//! length, and that many payload bytes. A block's *position* is the
//! offset of its first payload byte. Appending writes a new live block
//! at the end and never touches existing bytes; deletion overwrites
//! only the marker byte in place; a sequential scan yields the live
//! blocks in order, skipping tombstones.
//!
//! The collaborators that persist these bytes read and write a file;
//! the store itself is the byte-level logic, verified against
//! `parse_blocks`, the mathematical description of the layout.
use crate::bytes::{push_u64_be, read_u64_be, spec_be_u64, spec_u64_be};
use vstd::prelude::*;

verus! {

/// The marker byte of a live block.
pub const LIVE_MARKER: u8 = 0x45;

/// The marker byte of a tombstoned block.
pub const DEAD_MARKER: u8 = 0x44;

/// An error raised by the block store.
#[derive(Clone, Copy, Debug, PartialEq, Eq, Structural)]
pub enum StoreError {
    /// The scan reached the end of the store without another live
    /// block.
    EndOfFile,
    /// The given offset is not the position of any block.
    InvalidPosition,
}

/// One block as the layout describes it: its payload position, its
/// liveness, and its payload bytes.
#[verifier::ext_equal]
pub struct SpecBlock {
    pub pos: int,
    pub live: bool,
    pub payload: Seq<u8>,
}

/// Parses the block layout of `data` from offset `i` to the end.
///
/// `None` when the bytes from `i` are not a well-formed run of
/// blocks.
pub open spec fn parse_blocks(data: Seq<u8>, i: int) -> Option<Seq<SpecBlock>>
    decreases data.len() - i,
{
    if i == data.len() {
        Some(seq![])
    } else if i < 0 || i + 9 > data.len() {
        None
    } else if data[i] != LIVE_MARKER && data[i] != DEAD_MARKER {
        None
    } else {
        let n = spec_be_u64(data.subrange(i + 1, i + 9)) as int;
        if i + 9 + n > data.len() {
            None
        } else {
            match parse_blocks(data, i + 9 + n) {
                Option::None => None,
                Option::Some(rest) => Some(
                    seq![
                        SpecBlock {
                            pos: i + 9,
                            live: data[i] == LIVE_MARKER,
                            payload: data.subrange(i + 9, i + 9 + n),
                        },
                    ] + rest,
                ),
            }
        }
    }
}

/// The bytes form a well-formed run of blocks.
pub open spec fn store_wf(data: Seq<u8>) -> bool {
    parse_blocks(data, 0) is Some
}

/// The blocks of a well-formed store.
pub open spec fn blocks_of(data: Seq<u8>) -> Seq<SpecBlock> {
    parse_blocks(data, 0)->Some_0
}

/// The marker offset of block `k`, or the end of the store when `k`
/// is the block count.
pub open spec fn block_start(data: Seq<u8>, k: int) -> int {
    if k < blocks_of(data).len() {
        blocks_of(data)[k].pos - 9
    } else {
        data.len() as int
    }
}

/// The first live block at or after index `k`.
pub open spec fn next_live(blocks: Seq<SpecBlock>, k: int) -> Option<int>
    decreases blocks.len() - k,
{
    if k < 0 || k >= blocks.len() {
        None
    } else if blocks[k].live {
        Some(k)
    } else {
        next_live(blocks, k + 1)
    }
}

/// The index of the first block whose payload position is `pos`.
pub open spec fn find_block(blocks: Seq<SpecBlock>, pos: int) -> Option<int>
    decreases blocks.len(),
{
    if blocks.len() == 0 {
        None
    } else if blocks[0].pos == pos {
        Some(0)
    } else {
        match find_block(blocks.drop_first(), pos) {
            Option::None => None,
            Option::Some(j) => Some(j + 1),
        }
    }
}

/// The bytes of the store after appending one live block holding
/// `payload`.
pub open spec fn append_bytes(data: Seq<u8>, payload: Seq<u8>) -> Seq<u8> {
    data + seq![LIVE_MARKER] + spec_u64_be(payload.len() as u64) + payload
}

/// The bytes of the store after tombstoning the block whose payload
/// starts at `pos`.
pub open spec fn delete_bytes(data: Seq<u8>, pos: int) -> Seq<u8> {
    data.update(pos - 9, DEAD_MARKER)
}

// ---------------------------------------------------------------------
// Layout lemmas
// ---------------------------------------------------------------------
/// The layout facts of each parsed block: where its header and
/// payload lie and what they hold.
pub proof fn lemma_parse_blocks_index(data: Seq<u8>, i: int, k: int)
    requires
        0 <= i,
        parse_blocks(data, i) is Some,
        0 <= k < parse_blocks(data, i)->Some_0.len(),
    ensures
        ({
            let b = parse_blocks(data, i)->Some_0[k];
            &&& i + 9 <= b.pos
            &&& b.pos + b.payload.len() <= data.len()
            &&& data[b.pos - 9] == (if b.live {
                LIVE_MARKER
            } else {
                DEAD_MARKER
            })
            &&& spec_be_u64(data.subrange(b.pos - 8, b.pos)) as int == b.payload.len()
            &&& b.payload == data.subrange(b.pos, b.pos + b.payload.len())
            &&& parse_blocks(data, b.pos + b.payload.len()) == Some(
                parse_blocks(data, i)->Some_0.skip(k + 1),
            )
            &&& parse_blocks(data, b.pos - 9) == Some(parse_blocks(data, i)->Some_0.skip(k))
        }),
    decreases data.len() - i,
{
    let bs = parse_blocks(data, i)->Some_0;
    let n = spec_be_u64(data.subrange(i + 1, i + 9)) as int;
    if k == 0 {
        assert(bs.skip(0) =~= bs);
        assert(bs.skip(1) =~= parse_blocks(data, i + 9 + n)->Some_0) by {
            assert(bs.drop_first() =~= parse_blocks(data, i + 9 + n)->Some_0);
        }
    } else {
        lemma_parse_blocks_index(data, i + 9 + n, k - 1);
        assert(bs[k] == parse_blocks(data, i + 9 + n)->Some_0[k - 1]);
        assert(bs.skip(k) =~= parse_blocks(data, i + 9 + n)->Some_0.skip(k - 1));
        assert(bs.skip(k + 1) =~= parse_blocks(data, i + 9 + n)->Some_0.skip(k));
    }
}

/// Block positions strictly increase with the index.
pub proof fn lemma_positions_increase(data: Seq<u8>, i: int, k1: int, k2: int)
    requires
        0 <= i,
        parse_blocks(data, i) is Some,
        0 <= k1 < k2 < parse_blocks(data, i)->Some_0.len(),
    ensures
        parse_blocks(data, i)->Some_0[k1].pos < parse_blocks(data, i)->Some_0[k2].pos,
    decreases data.len() - i,
{
    let bs = parse_blocks(data, i)->Some_0;
    let n = spec_be_u64(data.subrange(i + 1, i + 9)) as int;
    if k1 == 0 {
        lemma_parse_blocks_index(data, i, k2);
        assert(bs[k2] == parse_blocks(data, i + 9 + n)->Some_0[k2 - 1]);
        lemma_parse_blocks_index(data, i + 9 + n, k2 - 1);
    } else {
        lemma_positions_increase(data, i + 9 + n, k1 - 1, k2 - 1);
        assert(bs[k1] == parse_blocks(data, i + 9 + n)->Some_0[k1 - 1]);
        assert(bs[k2] == parse_blocks(data, i + 9 + n)->Some_0[k2 - 1]);
    }
}

/// Appending one well-formed block extends the parsed run by one.
pub proof fn lemma_parse_blocks_append(data: Seq<u8>, i: int, payload: Seq<u8>)
    requires
        0 <= i,
        parse_blocks(data, i) is Some,
        payload.len() <= u64::MAX,
    ensures
        parse_blocks(append_bytes(data, payload), i) == Some(
            parse_blocks(data, i)->Some_0.push(
                SpecBlock { pos: data.len() as int + 9, live: true, payload },
            ),
        ),
    decreases data.len() - i,
{
    broadcast use crate::bytes::lemma_u64_be_round_trip;

    let data2 = append_bytes(data, payload);
    let m = payload.len() as int;
    assert(data2.len() == data.len() + 9 + m);
    if i == data.len() {
        assert(data2[i] == LIVE_MARKER);
        assert(data2.subrange(i + 1, i + 9) =~= spec_u64_be(payload.len() as u64));
        assert(spec_be_u64(spec_u64_be(payload.len() as u64)) == payload.len() as u64);
        assert(data2.subrange(i + 9, i + 9 + m) =~= payload);
        assert(i + 9 + m == data2.len());
        assert(parse_blocks(data2, i + 9 + m) == Some(Seq::<SpecBlock>::empty()));
        assert(parse_blocks(data, i)->Some_0 =~= Seq::<SpecBlock>::empty());
        assert(seq![SpecBlock { pos: i + 9, live: true, payload }]
            + Seq::<SpecBlock>::empty() =~= parse_blocks(data, i)->Some_0.push(
            SpecBlock { pos: data.len() as int + 9, live: true, payload },
        ));
    } else {
        let n = spec_be_u64(data.subrange(i + 1, i + 9)) as int;
        assert(data2[i] == data[i]);
        assert(data2.subrange(i + 1, i + 9) =~= data.subrange(i + 1, i + 9));
        assert(data2.subrange(i + 9, i + 9 + n) =~= data.subrange(i + 9, i + 9 + n));
        lemma_parse_blocks_append(data, i + 9 + n, payload);
        assert(seq![
            SpecBlock { pos: i + 9, live: data[i] == LIVE_MARKER, payload: data.subrange(i + 9, i + 9 + n) },
        ] + parse_blocks(data, i + 9 + n)->Some_0.push(
            SpecBlock { pos: data.len() as int + 9, live: true, payload },
        ) =~= parse_blocks(data, i)->Some_0.push(
            SpecBlock { pos: data.len() as int + 9, live: true, payload },
        ));
    }
}

/// Tombstoning one block flips its liveness and nothing else.
pub proof fn lemma_parse_blocks_delete(data: Seq<u8>, i: int, j: int)
    requires
        0 <= i,
        parse_blocks(data, i) is Some,
        0 <= j < parse_blocks(data, i)->Some_0.len(),
    ensures
        ({
            let bs = parse_blocks(data, i)->Some_0;
            let data2 = delete_bytes(data, bs[j].pos);
            parse_blocks(data2, i) == Some(
                bs.update(j, SpecBlock { pos: bs[j].pos, live: false, payload: bs[j].payload }),
            )
        }),
    decreases data.len() - i,
{
    let bs = parse_blocks(data, i)->Some_0;
    let data2 = delete_bytes(data, bs[j].pos);
    let n = spec_be_u64(data.subrange(i + 1, i + 9)) as int;
    lemma_parse_blocks_index(data, i, j);
    if j == 0 {
        assert(bs[0].pos == i + 9);
        assert(data2[i] == DEAD_MARKER);
        assert(data2.subrange(i + 1, i + 9) =~= data.subrange(i + 1, i + 9));
        assert(data2.subrange(i + 9, i + 9 + n) =~= data.subrange(i + 9, i + 9 + n));
        lemma_parse_blocks_unchanged(data, data2, i + 9 + n);
        assert(seq![SpecBlock { pos: i + 9, live: false, payload: data.subrange(i + 9, i + 9 + n) }]
            + parse_blocks(data, i + 9 + n)->Some_0 =~= bs.update(
            0,
            SpecBlock { pos: bs[0].pos, live: false, payload: bs[0].payload },
        ));
    } else {
        assert(bs[j] == parse_blocks(data, i + 9 + n)->Some_0[j - 1]);
        lemma_parse_blocks_index(data, i + 9 + n, j - 1);
        assert(bs[j].pos - 9 >= i + 9 + n);
        assert(data2[i] == data[i]);
        assert(data2.subrange(i + 1, i + 9) =~= data.subrange(i + 1, i + 9));
        assert(data2.subrange(i + 9, i + 9 + n) =~= data.subrange(i + 9, i + 9 + n));
        lemma_parse_blocks_delete(data, i + 9 + n, j - 1);
        assert(seq![
            SpecBlock { pos: i + 9, live: data[i] == LIVE_MARKER, payload: data.subrange(i + 9, i + 9 + n) },
        ] + parse_blocks(data, i + 9 + n)->Some_0.update(
            j - 1,
            SpecBlock { pos: bs[j].pos, live: false, payload: bs[j].payload },
        ) =~= bs.update(j, SpecBlock { pos: bs[j].pos, live: false, payload: bs[j].payload }));
    }
}

/// Parsing only looks at bytes from `i` on: equal suffixes parse
/// equally.
pub proof fn lemma_parse_blocks_unchanged(data: Seq<u8>, data2: Seq<u8>, i: int)
    requires
        0 <= i,
        data2.len() == data.len(),
        forall|k: int| i <= k < data.len() ==> data2[k] == data[k],
    ensures
        parse_blocks(data2, i) == parse_blocks(data, i),
    decreases data.len() - i,
{
    if i < data.len() && i + 9 <= data.len() {
        assert(data2.subrange(i + 1, i + 9) =~= data.subrange(i + 1, i + 9));
        let n = spec_be_u64(data.subrange(i + 1, i + 9)) as int;
        if (data[i] == LIVE_MARKER || data[i] == DEAD_MARKER) && i + 9 + n <= data.len() {
            assert(data2.subrange(i + 9, i + 9 + n) =~= data.subrange(i + 9, i + 9 + n));
            lemma_parse_blocks_unchanged(data, data2, i + 9 + n);
        }
    }
}

// ---------------------------------------------------------------------
// The executable store
// ---------------------------------------------------------------------
/// A reader/writer of blocks over the store's bytes.
///
/// Owns the full byte image of the store and a persistent scan
/// cursor. Collaborators load those bytes from disk and write them
/// back; every operation here is pure byte manipulation.
pub struct BlockStore {
    /// The bytes of the store.
    pub bytes: Vec<u8>,
    /// The scan cursor: the marker offset of the next block the scan
    /// will look at, or the end of the bytes.
    pub cursor: usize,
    /// The index of the block the cursor stands at.
    pub cursor_block: Ghost<int>,
}

impl BlockStore {
    /// The bytes parse as a run of blocks and the cursor stands at a
    /// block boundary.
    pub open spec fn wf(&self) -> bool {
        &&& store_wf(self.bytes@)
        &&& 0 <= self.cursor_block@ <= blocks_of(self.bytes@).len()
        &&& self.cursor as int == block_start(self.bytes@, self.cursor_block@)
    }

    /// The blocks this store holds.
    pub open spec fn blocks(&self) -> Seq<SpecBlock> {
        blocks_of(self.bytes@)
    }

    /// Creates an empty store.
    pub fn new() -> (r: Self)
        ensures
            r.wf(),
            r.blocks() == Seq::<SpecBlock>::empty(),
            r.bytes@ == Seq::<u8>::empty(),
            r.cursor_block@ == 0,
    {
        let r = BlockStore { bytes: Vec::new(), cursor: 0, cursor_block: Ghost(0) };
        proof {
            assert(r.bytes@ =~= Seq::<u8>::empty());
            assert(blocks_of(r.bytes@) =~= Seq::<SpecBlock>::empty());
        }
        r
    }

    /// Validates `bytes` as a run of blocks and takes them as the
    /// store's content, with the scan cursor at the start.
    ///
    /// Collaborators that persisted a store's bytes reload them here;
    /// bytes that do not parse as a run of blocks are rejected.
    #[verifier::loop_isolation(false)]
    pub fn from_bytes(bytes: Vec<u8>) -> (r: Result<Self, StoreError>)
        ensures
            match r {
                Ok(s) => store_wf(bytes@) && s.wf() && s.bytes == bytes && s.cursor == 0
                    && s.cursor_block@ == 0,
                Err(e) => !store_wf(bytes@) && e == StoreError::InvalidPosition,
            },
    {
        let ghost data = bytes@;
        let n = bytes.len();
        let mut at: usize = 0;
        while at < n
            invariant
                0 <= at <= n,
                parse_blocks(data, 0) is Some <==> parse_blocks(data, at as int) is Some,
            decreases n - at,
        {
            if n - at < 9 {
                return Err(StoreError::InvalidPosition);
            }
            let marker = bytes[at];
            if marker != LIVE_MARKER && marker != DEAD_MARKER {
                return Err(StoreError::InvalidPosition);
            }
            let length_word = read_u64_be(&bytes, at + 1);
            if length_word > (n - at - 9) as u64 {
                return Err(StoreError::InvalidPosition);
            }
            let length = length_word as usize;
            at = at + 9 + length;
        }
        proof {
            assert(parse_blocks(data, n as int) == Some(Seq::<SpecBlock>::empty()));
        }
        let r = BlockStore { bytes, cursor: 0, cursor_block: Ghost(0) };
        proof {
            let bs = blocks_of(r.bytes@);
            if bs.len() > 0 {
                lemma_parse_blocks_index(r.bytes@, 0, 0);
                assert(bs[0].pos == 9);
            }
        }
        Ok(r)
    }

    /// Writes a block holding `block` at the end of the store.
    ///
    /// Returns the position at which the payload was written. Prior
    /// bytes are untouched: appending is the only way the store
    /// grows.
    pub fn write_block(&mut self, block: Vec<u8>) -> (r: usize)
        requires
            old(self).wf(),
            old(self).bytes@.len() + 9 + block@.len() <= usize::MAX,
        ensures
            final(self).wf(),
            final(self).bytes@ == append_bytes(old(self).bytes@, block@),
            final(self).bytes@.subrange(0, old(self).bytes@.len() as int) == old(self).bytes@,
            final(self).blocks() == old(self).blocks().push(
                SpecBlock { pos: old(self).bytes@.len() as int + 9, live: true, payload: block@ },
            ),
            r as int == old(self).bytes@.len() + 9,
            final(self).cursor == old(self).cursor,
            final(self).cursor_block@ == old(self).cursor_block@,
    {
        let ghost data0 = self.bytes@;
        let position = self.bytes.len() + 9;
        self.bytes.push(LIVE_MARKER);
        let n = block.len();
        push_u64_be(&mut self.bytes, n as u64);
        extend_from(&mut self.bytes, &block);
        proof {
            assert(self.bytes@ =~= append_bytes(data0, block@));
            lemma_parse_blocks_append(data0, 0, block@);
            assert(self.bytes@.subrange(0, data0.len() as int) =~= data0);
            if old(self).cursor_block@ < blocks_of(data0).len() {
                assert(blocks_of(self.bytes@)[old(self).cursor_block@] == blocks_of(
                    data0,
                )[old(self).cursor_block@]);
            }
        }
        position
    }

    /// Reads the next live block at or past the cursor, transparently
    /// skipping tombstoned blocks, and leaves the cursor just past it.
    ///
    /// Returns the block's position and its payload, or `EndOfFile`
    /// when only tombstones remain.
    #[verifier::loop_isolation(false)]
    pub fn next(&mut self) -> (r: Result<(usize, Vec<u8>), StoreError>)
        requires
            old(self).wf(),
        ensures
            final(self).wf(),
            final(self).bytes == old(self).bytes,
            match next_live(old(self).blocks(), old(self).cursor_block@) {
                Option::Some(j) => {
                    &&& r matches Ok((pos, payload)) && pos as int == old(self).blocks()[j].pos
                        && payload@ == old(self).blocks()[j].payload
                    &&& final(self).cursor_block@ == j + 1
                },
                Option::None => {
                    &&& r matches Err(e) && e == StoreError::EndOfFile
                    &&& final(self).cursor_block@ == old(self).blocks().len()
                },
            },
    {
        let ghost data = self.bytes@;
        let ghost bs = blocks_of(data);
        let n = self.bytes.len();
        loop
            invariant
                self.wf(),
                self.bytes == old(self).bytes,
                n == self.bytes@.len(),
                old(self).cursor_block@ <= self.cursor_block@,
                next_live(bs, old(self).cursor_block@) == next_live(bs, self.cursor_block@),
            decreases bs.len() - self.cursor_block@,
        {
            let ghost k = self.cursor_block@;
            if self.cursor >= n {
                proof {
                    if k < bs.len() {
                        lemma_parse_blocks_index(data, 0, k);
                    }
                    assert(k == bs.len());
                }
                return Err(StoreError::EndOfFile);
            }
            proof {
                assert(k < bs.len());
                lemma_parse_blocks_index(data, 0, k);
            }
            let marker = self.bytes[self.cursor];
            let length = read_u64_be(&self.bytes, self.cursor + 1) as usize;
            proof {
                assert(data.subrange(
                    self.cursor + 1,
                    self.cursor as int + 9,
                ) == data.subrange(bs[k].pos - 8, bs[k].pos));
                assert(length as int == bs[k].payload.len());
                if k + 1 < bs.len() {
                    lemma_parse_blocks_index(data, 0, k + 1);
                    lemma_positions_increase(data, 0, k, k + 1);
                    assert(parse_blocks(data, bs[k].pos + bs[k].payload.len()) == Some(
                        bs.skip(k + 1),
                    ));
                    assert(bs.skip(k + 1)[0] == bs[k + 1]);
                    assert(bs[k + 1].pos - 9 == bs[k].pos + bs[k].payload.len());
                } else {
                    assert(parse_blocks(data, bs[k].pos + bs[k].payload.len()) == Some(
                        bs.skip(k + 1),
                    ));
                    assert(bs.skip(k + 1) =~= Seq::<SpecBlock>::empty());
                    assert(bs[k].pos + bs[k].payload.len() == data.len());
                }
            }
            if marker == LIVE_MARKER {
                let position = self.cursor + 9;
                let payload = copy_range(&self.bytes, position, length);
                self.cursor = position + length;
                proof {
                    self.cursor_block@ = k + 1;
                }
                return Ok((position, payload));
            } else {
                self.cursor = self.cursor + 9 + length;
                proof {
                    self.cursor_block@ = k + 1;
                }
            }
        }
    }

    /// Reads the payload of the block whose payload starts at
    /// `position`, live or tombstoned.
    pub fn read_at_position(&self, position: usize) -> (r: Result<Vec<u8>, StoreError>)
        requires
            self.wf(),
        ensures
            match find_block(self.blocks(), position as int) {
                Option::Some(j) => r matches Ok(payload) && payload@ == self.blocks()[j].payload,
                Option::None => r matches Err(e) && e == StoreError::InvalidPosition,
            },
    {
        let ghost data = self.bytes@;
        let ghost bs = blocks_of(data);
        let n = self.bytes.len();
        match self.locate_block(position) {
            Option::None => Err(StoreError::InvalidPosition),
            Option::Some(k) => {
                let ghost j = find_block(bs, position as int)->Some_0;
                proof {
                    lemma_find_block_valid(bs, position as int);
                    lemma_parse_blocks_index(data, 0, j);
                    assert(data.subrange(position - 8, position as int) == data.subrange(
                        bs[j].pos - 8,
                        bs[j].pos,
                    ));
                }
                let length = read_u64_be(&self.bytes, position - 8) as usize;
                proof {
                    assert(length as int == bs[j].payload.len());
                }
                let payload = copy_range(&self.bytes, position, length);
                proof {
                    assert(payload@ == bs[j].payload);
                }
                Ok(payload)
            },
        }
    }

    /// Tombstones the block whose payload starts at `position`: one
    /// marker byte is rewritten in place, and no other byte changes.
    pub fn remove_block(&mut self, position: usize) -> (r: Result<(), StoreError>)
        requires
            old(self).wf(),
        ensures
            final(self).wf(),
            final(self).cursor == old(self).cursor,
            final(self).cursor_block@ == old(self).cursor_block@,
            match find_block(old(self).blocks(), position as int) {
                Option::Some(j) => {
                    &&& r is Ok
                    &&& final(self).bytes@ == delete_bytes(old(self).bytes@, position as int)
                    &&& final(self).blocks() == old(self).blocks().update(
                        j,
                        SpecBlock {
                            pos: old(self).blocks()[j].pos,
                            live: false,
                            payload: old(self).blocks()[j].payload,
                        },
                    )
                },
                Option::None => {
                    &&& r matches Err(e) && e == StoreError::InvalidPosition
                    &&& final(self).bytes == old(self).bytes
                },
            },
    {
        let ghost data = self.bytes@;
        let ghost bs = blocks_of(data);
        match self.locate_block(position) {
            Option::None => Err(StoreError::InvalidPosition),
            Option::Some(k) => {
                let ghost j = find_block(bs, position as int)->Some_0;
                proof {
                    lemma_find_block_valid(bs, position as int);
                    lemma_parse_blocks_index(data, 0, j);
                }
                set_byte(&mut self.bytes, position - 9, DEAD_MARKER);
                proof {
                    assert(self.bytes@ =~= delete_bytes(data, position as int));
                    lemma_parse_blocks_delete(data, 0, j);
                    if old(self).cursor_block@ < bs.len() {
                        assert(blocks_of(self.bytes@)[old(self).cursor_block@].pos == bs[old(
                            self,
                        ).cursor_block@].pos);
                    }
                }
                Ok(())
            },
        }
    }

    /// Rewinds the scan cursor to the start of the store.
    pub fn reset_position(&mut self)
        requires
            old(self).wf(),
        ensures
            final(self).wf(),
            final(self).bytes == old(self).bytes,
            final(self).cursor == 0,
            final(self).cursor_block@ == 0,
    {
        self.cursor = 0;
        proof {
            self.cursor_block@ = 0;
            let bs = blocks_of(self.bytes@);
            if bs.len() > 0 {
                lemma_parse_blocks_index(self.bytes@, 0, 0);
                assert(parse_blocks(self.bytes@, bs[0].pos - 9) == Some(bs.skip(0)));
                assert(bs[0].pos == 9);
            }
        }
    }

    /// Finds the index of the block whose payload starts at
    /// `position` by walking the block boundaries.
    #[verifier::loop_isolation(false)]
    fn locate_block(&self, position: usize) -> (r: Option<usize>)
        requires
            self.wf(),
        ensures
            match find_block(self.blocks(), position as int) {
                Option::Some(j) => r == Some(j as usize),
                Option::None => r is None,
            },
    {
        let ghost data = self.bytes@;
        let ghost bs = blocks_of(data);
        let n = self.bytes.len();
        let mut at: usize = 0;
        let mut k: usize = 0;
        proof {
            if bs.len() > 0 {
                lemma_parse_blocks_index(data, 0, 0);
            }
            lemma_blocks_count(data, 0);
            lemma_find_block_skip(bs, position as int, 0);
        }
        while at < n
            invariant
                self.wf(),
                n == data.len(),
                data == self.bytes@,
                bs == blocks_of(data),
                0 <= k as int <= bs.len(),
                bs.len() <= n,
                at as int == block_start(data, k as int),
                forall|j: int| 0 <= j < k ==> bs[j].pos != position as int,
                find_block(bs, position as int) is Some ==> find_block(
                    bs,
                    position as int,
                )->Some_0 >= k,
            decreases n - at,
        {
            proof {
                assert((k as int) < bs.len());
                lemma_parse_blocks_index(data, 0, k as int);
            }
            let length = read_u64_be(&self.bytes, at + 1) as usize;
            proof {
                assert(data.subrange(at + 1, at as int + 9) == data.subrange(
                    bs[k as int].pos - 8,
                    bs[k as int].pos,
                ));
                assert(length as int == bs[k as int].payload.len());
            }
            if at + 9 == position {
                proof {
                    lemma_find_block_first(bs, position as int, k as int);
                }
                return Some(k);
            }
            proof {
                if (k as int) + 1 < bs.len() {
                    lemma_parse_blocks_index(data, 0, k as int + 1);
                    assert(parse_blocks(data, bs[k as int].pos + bs[k as int].payload.len())
                        == Some(bs.skip(k as int + 1)));
                    assert(bs.skip(k as int + 1)[0] == bs[k as int + 1]);
                } else {
                    assert(parse_blocks(data, bs[k as int].pos + bs[k as int].payload.len())
                        == Some(bs.skip(k as int + 1)));
                    assert(bs.skip(k as int + 1) =~= Seq::<SpecBlock>::empty());
                }
                lemma_find_block_skip(bs, position as int, k as int + 1);
                lemma_blocks_count(data, 0);
            }
            at = at + 9 + length;
            k = k + 1;
        }
        proof {
            if (k as int) < bs.len() {
                lemma_parse_blocks_index(data, 0, k as int);
            }
            assert(k as int == bs.len());
            if find_block(bs, position as int) is Some {
                lemma_find_block_valid(bs, position as int);
            }
        }
        None
    }
}

/// When every block before `k` misses `pos`, a find hit lies at or
/// past `k`.
pub proof fn lemma_find_block_skip(blocks: Seq<SpecBlock>, pos: int, k: int)
    requires
        0 <= k <= blocks.len(),
        forall|j: int| 0 <= j < k ==> blocks[j].pos != pos,
    ensures
        find_block(blocks, pos) is Some ==> find_block(blocks, pos)->Some_0 >= k,
    decreases blocks.len(),
{
    match find_block(blocks, pos) {
        Option::None => {},
        Option::Some(m) => {
            lemma_find_block_valid(blocks, pos);
            if k > 0 {
                assert(blocks.len() > 0);
                assert(blocks[0].pos != pos);
                assert(forall|j: int|
                    0 <= j < k - 1 ==> blocks.drop_first()[j] == blocks[j + 1]);
                lemma_find_block_skip(blocks.drop_first(), pos, k - 1);
                let inner = find_block(blocks.drop_first(), pos);
                assert(inner is Some);
                assert(m == inner->Some_0 + 1);
                assert(inner->Some_0 >= k - 1);
            }
        },
    }
}

/// A store of `n` bytes holds fewer than `n` blocks.
pub proof fn lemma_blocks_count(data: Seq<u8>, i: int)
    requires
        0 <= i,
        parse_blocks(data, i) is Some,
    ensures
        parse_blocks(data, i)->Some_0.len() <= data.len() - i,
    decreases data.len() - i,
{
    if i < data.len() {
        let n = spec_be_u64(data.subrange(i + 1, i + 9)) as int;
        lemma_blocks_count(data, i + 9 + n);
    }
}

/// A block found at index `k` is the first hit when all earlier
/// blocks miss.
pub proof fn lemma_find_block_first(blocks: Seq<SpecBlock>, pos: int, k: int)
    requires
        0 <= k < blocks.len(),
        blocks[k].pos == pos,
        forall|j: int| 0 <= j < k ==> blocks[j].pos != pos,
    ensures
        find_block(blocks, pos) == Some(k),
    decreases k,
{
    if k > 0 {
        assert(forall|j: int|
            0 <= j < k - 1 ==> blocks.drop_first()[j].pos == blocks[j + 1].pos);
        assert(blocks.drop_first()[k - 1] == blocks[k]);
        lemma_find_block_first(blocks.drop_first(), pos, k - 1);
    }
}

/// A find hit names a real block with that position.
pub proof fn lemma_find_block_valid(blocks: Seq<SpecBlock>, pos: int)
    requires
        find_block(blocks, pos) is Some,
    ensures
        0 <= find_block(blocks, pos)->Some_0 < blocks.len(),
        blocks[find_block(blocks, pos)->Some_0].pos == pos,
    decreases blocks.len(),
{
    if blocks.len() > 0 && blocks[0].pos != pos {
        lemma_find_block_valid(blocks.drop_first(), pos);
    }
}

/// Appends all of `src` to `out`.
fn extend_from(out: &mut Vec<u8>, src: &Vec<u8>)
    requires
        old(out)@.len() + src@.len() <= usize::MAX,
    ensures
        final(out)@ == old(out)@ + src@,
{
    let n = src.len();
    let mut k: usize = 0;
    proof {
        assert(out@ =~= old(out)@ + src@.take(0));
    }
    while k < n
        invariant
            n == src@.len(),
            0 <= k <= n,
            out@ == old(out)@ + src@.take(k as int),
        decreases n - k,
    {
        out.push(src[k]);
        proof {
            assert((old(out)@ + src@.take(k as int)).push(src@[k as int]) =~= old(out)@
                + src@.take(k + 1));
        }
        k = k + 1;
    }
    proof {
        assert(src@.take(n as int) =~= src@);
    }
}

/// Copies `len` bytes of `src` starting at `from`.
fn copy_range(src: &Vec<u8>, from: usize, len: usize) -> (r: Vec<u8>)
    requires
        from + len <= src@.len(),
    ensures
        r@ == src@.subrange(from as int, from + len),
{
    let total = src.len();
    let mut r: Vec<u8> = Vec::new();
    let mut k: usize = 0;
    proof {
        assert(r@ =~= src@.subrange(from as int, from as int));
    }
    while k < len
        invariant
            total == src@.len(),
            from + len <= src@.len(),
            0 <= k <= len,
            r@ == src@.subrange(from as int, from + k),
        decreases len - k,
    {
        r.push(src[from + k]);
        proof {
            assert(src@.subrange(from as int, from + k).push(src@[from + k]) =~= src@.subrange(
                from as int,
                from + k + 1,
            ));
        }
        k = k + 1;
    }
    r
}

/// Overwrites one byte of `v`.
fn set_byte(v: &mut Vec<u8>, at: usize, value: u8)
    requires
        at < old(v)@.len(),
    ensures
        final(v)@ == old(v)@.update(at as int, value),
{
    let r = &mut v[at];
    *r = value;
    proof {
        assert(v@ =~= old(v)@.update(at as int, value));
    }
}

// ---------------------------------------------------------------------
// Durability laws
// ---------------------------------------------------------------------
/// A scan yields only live blocks.
pub proof fn lemma_next_live_is_live(blocks: Seq<SpecBlock>, k: int)
    ensures
        next_live(blocks, k) matches Some(j) ==> 0 <= j < blocks.len() && blocks[j].live && k <= j,
    decreases blocks.len() - k,
{
    if 0 <= k < blocks.len() && !blocks[k].live {
        lemma_next_live_is_live(blocks, k + 1);
    }
}

/// Append-only durability: appending a block never modifies a byte
/// written before, and every prior block keeps its position, its
/// liveness and its payload.
pub proof fn lemma_append_only(data: Seq<u8>, payload: Seq<u8>)
    requires
        store_wf(data),
        payload.len() <= u64::MAX,
    ensures
        append_bytes(data, payload).subrange(0, data.len() as int) == data,
        store_wf(append_bytes(data, payload)),
        blocks_of(append_bytes(data, payload)) == blocks_of(data).push(
            SpecBlock { pos: data.len() as int + 9, live: true, payload },
        ),
        forall|k: int|
            0 <= k < blocks_of(data).len() ==> #[trigger] blocks_of(append_bytes(data, payload))[k]
                == blocks_of(data)[k],
{
    lemma_parse_blocks_append(data, 0, payload);
    assert(append_bytes(data, payload).subrange(0, data.len() as int) =~= data);
}

/// Tombstone invisibility: after the block at `pos` is tombstoned,
/// every byte but its marker is unchanged, a scan from anywhere never
/// yields `pos` again, and the payload at `pos` still reads back
/// unchanged.
pub proof fn lemma_tombstone_invisibility(data: Seq<u8>, j: int)
    requires
        store_wf(data),
        0 <= j < blocks_of(data).len(),
    ensures
        ({
            let pos = blocks_of(data)[j].pos;
            let data2 = delete_bytes(data, pos);
            &&& store_wf(data2)
            &&& data2.len() == data.len()
            &&& forall|b: int| 0 <= b < data.len() && b != pos - 9 ==> data2[b] == data[b]
            &&& blocks_of(data2) == blocks_of(data).update(
                j,
                SpecBlock { pos, live: false, payload: blocks_of(data)[j].payload },
            )
            &&& forall|k: int|
                next_live(blocks_of(data2), k) is Some ==> blocks_of(data2)[next_live(
                    blocks_of(data2),
                    k,
                )->Some_0].pos != pos
            &&& find_block(blocks_of(data2), pos) == find_block(blocks_of(data), pos)
            &&& (find_block(blocks_of(data), pos) is Some ==> blocks_of(data2)[find_block(
                blocks_of(data),
                pos,
            )->Some_0].payload == blocks_of(data)[find_block(blocks_of(data), pos)->Some_0].payload)
        }),
{
    let bs = blocks_of(data);
    let pos = bs[j].pos;
    let data2 = delete_bytes(data, pos);
    lemma_parse_blocks_index(data, 0, j);
    assert(0 <= pos - 9 < data.len());
    lemma_parse_blocks_delete(data, 0, j);
    let bs2 = blocks_of(data2);
    assert forall|k: int| next_live(bs2, k) is Some implies bs2[next_live(bs2, k)->Some_0].pos
        != pos by {
        lemma_next_live_is_live(bs2, k);
        let l = next_live(bs2, k)->Some_0;
        if l != j && bs2[l].pos == pos {
            assert(bs[l].pos == bs[j].pos);
            if l < j {
                lemma_positions_increase(data, 0, l, j);
            } else {
                lemma_positions_increase(data, 0, j, l);
            }
        }
    }
    lemma_find_block_same_positions(bs, bs2, pos);
    match find_block(bs, pos) {
        Option::None => {},
        Option::Some(m) => {
            lemma_find_block_valid(bs, pos);
            assert(0 <= m < bs2.len());
            assert(bs2[m].payload == bs[m].payload);
        },
    }
}

/// Finding by position only looks at positions: lists that agree on
/// them agree on the find.
pub proof fn lemma_find_block_same_positions(b1: Seq<SpecBlock>, b2: Seq<SpecBlock>, pos: int)
    requires
        b1.len() == b2.len(),
        forall|k: int| 0 <= k < b1.len() ==> b1[k].pos == b2[k].pos,
    ensures
        find_block(b2, pos) == find_block(b1, pos),
    decreases b1.len(),
{
    if b1.len() > 0 {
        assert(b1[0].pos == b2[0].pos);
        assert(forall|k: int|
            0 <= k < b1.drop_first().len() ==> b1.drop_first()[k].pos == b2.drop_first()[k].pos);
        lemma_find_block_same_positions(b1.drop_first(), b2.drop_first(), pos);
    }
}

} // verus!
