use vstd::prelude::*;
use vstd::arithmetic::div_mod::lemma_fundamental_div_mod_converse;
use crate::card::{face_eq, printing_eq};
use crate::store::{face_count, find_oracle_row, find_face_row, find_printing_row, row_card_eq};
use crate::card::{OracleCard, Printing};
use crate::error::ScryfallError;
use crate::external::now_timestamp;
use crate::store::Storage;

verus! {

// ---------------------------------------------------------------------------
// Streaming extraction: one byte at a time, tracking brace depth and
// string state, so a gigabyte export never has to fit in memory. The
// library scans the bytes; reading the file and turning each extracted
// object into a wire record happens outside it.
// ---------------------------------------------------------------------------

/// The scanner's whole condition after some bytes: brace depth, whether
/// the position is inside a quoted string, whether the last byte opened
/// an escape, the bytes of the object being accumulated, and every
/// complete top-level object seen so far.
pub struct ScanState {
    pub depth: int,
    pub in_string: bool,
    pub escape: bool,
    pub buf: Seq<u8>,
    pub emitted: Seq<Seq<u8>>,
}

pub open spec fn scan_init() -> ScanState {
    ScanState { depth: 0, in_string: false, escape: false, buf: Seq::empty(), emitted: Seq::empty() }
}

/// One byte of scanning: a quote toggles string state (honoring
/// backslash escapes), braces outside strings track nesting, and depth
/// returning to zero emits the accumulated object.
pub open spec fn scan_step(st: ScanState, b: u8) -> ScanState {
    let buf1 = if st.depth > 0 {
        st.buf.push(b)
    } else {
        st.buf
    };
    if !st.in_string {
        if b == 123 {
            ScanState {
                depth: st.depth + 1,
                in_string: false,
                escape: st.escape,
                buf: if st.depth == 0 {
                    buf1.push(b)
                } else {
                    buf1
                },
                emitted: st.emitted,
            }
        } else if b == 125 {
            if st.depth == 1 {
                ScanState {
                    depth: 0,
                    in_string: false,
                    escape: st.escape,
                    buf: Seq::empty(),
                    emitted: st.emitted.push(buf1),
                }
            } else {
                ScanState {
                    depth: st.depth - 1,
                    in_string: false,
                    escape: st.escape,
                    buf: buf1,
                    emitted: st.emitted,
                }
            }
        } else if b == 34 {
            ScanState {
                depth: st.depth,
                in_string: true,
                escape: st.escape,
                buf: buf1,
                emitted: st.emitted,
            }
        } else {
            ScanState {
                depth: st.depth,
                in_string: false,
                escape: st.escape,
                buf: buf1,
                emitted: st.emitted,
            }
        }
    } else if st.escape {
        ScanState {
            depth: st.depth,
            in_string: true,
            escape: false,
            buf: buf1,
            emitted: st.emitted,
        }
    } else if b == 92 {
        ScanState { depth: st.depth, in_string: true, escape: true, buf: buf1, emitted: st.emitted }
    } else if b == 34 {
        ScanState {
            depth: st.depth,
            in_string: false,
            escape: st.escape,
            buf: buf1,
            emitted: st.emitted,
        }
    } else {
        ScanState { depth: st.depth, in_string: true, escape: st.escape, buf: buf1, emitted: st.emitted }
    }
}

/// The scanner run over a byte run, front to back.
pub open spec fn scan_from(st: ScanState, bytes: Seq<u8>) -> ScanState
    decreases bytes.len(),
{
    if bytes.len() == 0 {
        st
    } else {
        scan_from(scan_step(st, bytes[0]), bytes.skip(1))
    }
}

pub open spec fn scan_bytes(bytes: Seq<u8>) -> ScanState {
    scan_from(scan_init(), bytes)
}

/// Scanning a concatenation is scanning the pieces in turn.
pub proof fn lemma_scan_from_concat(st: ScanState, a: Seq<u8>, b: Seq<u8>)
    ensures
        scan_from(st, a + b) == scan_from(scan_from(st, a), b),
    decreases a.len(),
{
    if a.len() == 0 {
        assert(a + b =~= b);
    } else {
        assert((a + b)[0] == a[0]);
        assert((a + b).skip(1) =~= a.skip(1) + b);
        lemma_scan_from_concat(scan_step(st, a[0]), a.skip(1), b);
    }
}

/// The in-memory half of streaming extraction: feeding it the export's
/// bytes in order yields each complete top-level object the moment its
/// closing brace arrives, exactly as the scanning specification says.
pub struct ObjectScanner {
    pub depth: i128,
    pub in_string: bool,
    pub escape: bool,
    pub buf: Vec<u8>,
}

impl ObjectScanner {
    /// The exec scanner is at the spec state with the given emission
    /// history behind it.
    pub open spec fn matches(self, st: ScanState) -> bool {
        &&& self.depth as int == st.depth
        &&& self.in_string == st.in_string
        &&& self.escape == st.escape
        &&& self.buf@ == st.buf
    }

    pub fn new() -> (r: ObjectScanner)
        ensures
            r.matches(scan_init()),
    {
        ObjectScanner { depth: 0, in_string: false, escape: false, buf: Vec::new() }
    }

    /// Feeds one byte; a completed top-level object comes back whole.
    pub fn push_byte(&mut self, b: u8) -> (r: Option<Vec<u8>>)
        requires
            -0x10000000000000000 < old(self).depth < 0x10000000000000000,
        ensures
            ({
                let pre = ScanState {
                    depth: old(self).depth as int,
                    in_string: old(self).in_string,
                    escape: old(self).escape,
                    buf: old(self).buf@,
                    emitted: Seq::empty(),
                };
                let post = scan_step(pre, b);
                &&& final(self).matches(
                    ScanState {
                        depth: post.depth,
                        in_string: post.in_string,
                        escape: post.escape,
                        buf: post.buf,
                        emitted: Seq::empty(),
                    },
                )
                &&& (match r {
                    Some(obj) => post.emitted =~= seq![obj@],
                    None => post.emitted =~= Seq::<Seq<u8>>::empty(),
                })
            }),
    {
        if self.depth > 0 {
            self.buf.push(b);
        }
        if !self.in_string {
            if b == 123 {
                if self.depth == 0 {
                    self.buf.push(b);
                }
                self.depth = self.depth + 1;
                None
            } else if b == 125 {
                if self.depth == 1 {
                    self.depth = 0;
                    let out = self.buf.split_off(0);
                    proof {
                        assert(self.buf@ =~= Seq::<u8>::empty());
                        assert(out@ =~= old(self).buf@.push(b));
                    }
                    Some(out)
                } else {
                    self.depth = self.depth - 1;
                    None
                }
            } else if b == 34 {
                self.in_string = true;
                None
            } else {
                None
            }
        } else if self.escape {
            self.escape = false;
            None
        } else if b == 92 {
            self.escape = true;
            None
        } else if b == 34 {
            self.in_string = false;
            None
        } else {
            None
        }
    }
}

/// The frame of a scan: the emitted objects depend only on the core of
/// the starting state, and earlier emissions are kept in front.
pub proof fn lemma_scan_emitted_frame(st: ScanState, bytes: Seq<u8>)
    ensures
        ({
            let core = ScanState {
                depth: st.depth,
                in_string: st.in_string,
                escape: st.escape,
                buf: st.buf,
                emitted: Seq::empty(),
            };
            let full = scan_from(st, bytes);
            let bare = scan_from(core, bytes);
            &&& full.depth == bare.depth
            &&& full.in_string == bare.in_string
            &&& full.escape == bare.escape
            &&& full.buf == bare.buf
            &&& full.emitted == st.emitted + bare.emitted
        }),
    decreases bytes.len(),
{
    let core = ScanState {
        depth: st.depth,
        in_string: st.in_string,
        escape: st.escape,
        buf: st.buf,
        emitted: Seq::empty(),
    };
    if bytes.len() == 0 {
        assert(st.emitted + Seq::<Seq<u8>>::empty() =~= st.emitted);
    } else {
        let st1 = scan_step(st, bytes[0]);
        let core1 = scan_step(core, bytes[0]);
        lemma_scan_emitted_frame(st1, bytes.skip(1));
        lemma_scan_emitted_frame(core1, bytes.skip(1));
        assert(st1.emitted =~= st.emitted + core1.emitted);
        assert(st.emitted + (core1.emitted + scan_from(
            ScanState {
                depth: core1.depth,
                in_string: core1.in_string,
                escape: core1.escape,
                buf: core1.buf,
                emitted: Seq::empty(),
            },
            bytes.skip(1),
        ).emitted) =~= (st.emitted + core1.emitted) + scan_from(
            ScanState {
                depth: core1.depth,
                in_string: core1.in_string,
                escape: core1.escape,
                buf: core1.buf,
                emitted: Seq::empty(),
            },
            bytes.skip(1),
        ).emitted);
    }
}

/// Scans a whole in-memory byte run, returning every complete top-level
/// object in order of appearance.
pub fn extract_objects(data: &[u8]) -> (r: Vec<Vec<u8>>)
    ensures
        r@.len() == scan_bytes(data@).emitted.len(),
        forall|i: int|
            0 <= i < r@.len() ==> (#[trigger] r@[i])@ == scan_bytes(data@).emitted[i],
{
    let n = data.len();
    let mut scanner = ObjectScanner::new();
    let mut out: Vec<Vec<u8>> = Vec::new();
    let mut i: usize = 0;
    proof {
        assert(data@.take(0) =~= Seq::<u8>::empty());
    }
    while i < n
        invariant
            n == data@.len(),
            0 <= i <= n,
            scanner.matches(
                ScanState {
                    depth: scan_bytes(data@.take(i as int)).depth,
                    in_string: scan_bytes(data@.take(i as int)).in_string,
                    escape: scan_bytes(data@.take(i as int)).escape,
                    buf: scan_bytes(data@.take(i as int)).buf,
                    emitted: Seq::empty(),
                },
            ),
            -(i as int) <= scanner.depth <= i as int,
            out@.len() == scan_bytes(data@.take(i as int)).emitted.len(),
            forall|k: int|
                0 <= k < out@.len() ==> (#[trigger] out@[k])@ == scan_bytes(
                    data@.take(i as int),
                ).emitted[k],
        decreases n - i,
    {
        let ghost pre_scan = scan_bytes(data@.take(i as int));
        let ghost bv = data@[i as int];
        proof {
            let s1 = seq![bv];
            assert(data@.take(i + 1) =~= data@.take(i as int) + s1);
            lemma_scan_from_concat(scan_init(), data@.take(i as int), s1);
            assert(s1[0] == bv);
            assert(s1.skip(1) =~= Seq::<u8>::empty());
            assert(scan_from(pre_scan, s1) == scan_from(scan_step(pre_scan, bv), s1.skip(1)));
            assert(scan_from(scan_step(pre_scan, bv), s1.skip(1)) == scan_step(pre_scan, bv));
            assert(scan_bytes(data@.take(i + 1)) == scan_step(pre_scan, bv));
        }
        let b = data[i];
        let ghost core = ScanState {
            depth: pre_scan.depth,
            in_string: pre_scan.in_string,
            escape: pre_scan.escape,
            buf: pre_scan.buf,
            emitted: Seq::empty(),
        };
        match scanner.push_byte(b) {
            Some(obj) => {
                proof {
                    let stepped = scan_step(pre_scan, bv);
                    let cstep = scan_step(core, bv);
                    assert(cstep.emitted =~= seq![obj@]);
                    assert(cstep.emitted.len() == 1);
                    assert(!pre_scan.in_string && bv == 125 && pre_scan.depth == 1) by {
                        if !(!core.in_string && bv == 125 && core.depth == 1) {
                            assert(cstep.emitted == core.emitted);
                        }
                    }
                    assert(cstep.emitted[0] == pre_scan.buf.push(bv));
                    assert(obj@ == pre_scan.buf.push(bv));
                    assert(stepped.emitted == pre_scan.emitted.push(pre_scan.buf.push(bv)));
                    assert(stepped.emitted =~= pre_scan.emitted.push(obj@));
                }
                out.push(obj);
            },
            None => {
                proof {
                    let stepped = scan_step(pre_scan, bv);
                    let cstep = scan_step(core, bv);
                    assert(cstep.emitted =~= Seq::<Seq<u8>>::empty());
                    assert(stepped.emitted =~= pre_scan.emitted);
                }
            },
        }
        i = i + 1;
    }
    proof {
        assert(data@.take(n as int) =~= data@);
    }
    out
}

// ---------------------------------------------------------------------------
// Batching.
// ---------------------------------------------------------------------------

/// Groups items into batches of the chunk size, in order: every batch
/// but the last is full, the last holds the remainder (or a full chunk),
/// and reading the batches back in order reads the items in order.
pub fn make_batches<T>(items: Vec<T>, chunk_size: usize) -> (r: Vec<Vec<T>>)
    requires
        chunk_size > 0,
    ensures
        items@.len() == 0 ==> r@.len() == 0,
        items@.len() > 0 ==> r@.len() == ((items@.len() - 1) / (chunk_size as int)) + 1,
        forall|b: int|
            0 <= b < r@.len() ==> (#[trigger] r@[b])@.len() == (if b + 1 < r@.len() {
                chunk_size as int
            } else {
                items@.len() - b * (chunk_size as int)
            }),
        forall|b: int, j: int|
            0 <= b < r@.len() && 0 <= j < r@[b]@.len() ==> (#[trigger] r@[b]@[j]) == items@[b * (
            chunk_size as int) + j],
{
    let ghost items0 = items@;
    let ghost ck = chunk_size as int;
    let n = items.len();
    let mut rest = items;
    let mut out: Vec<Vec<T>> = Vec::new();
    let mut cur: Vec<T> = Vec::new();
    let mut i: usize = 0;
    proof {
        assert(0int * ck == 0) by (nonlinear_arith);
        assert(rest@ =~= items0.skip(0));
    }
    while i < n
        invariant
            chunk_size > 0,
            ck == chunk_size as int,
            n == items0.len(),
            0 <= i <= n,
            rest@ =~= items0.skip(i as int),
            rest@.len() == n - i,
            i as int == out@.len() * ck + cur@.len(),
            cur@.len() < ck,
            forall|b: int| 0 <= b < out@.len() ==> (#[trigger] out@[b])@.len() == ck,
            forall|b: int, j: int|
                0 <= b < out@.len() && 0 <= j < ck ==> (#[trigger] out@[b]@[j]) == items0[b * ck
                    + j],
            forall|j: int| 0 <= j < cur@.len() ==> (#[trigger] cur@[j]) == items0[out@.len() * ck
                + j],
        decreases n - i,
    {
        proof {
            assert(rest@[0] == items0[i as int]);
            assert(rest@.remove(0) =~= items0.skip(i + 1));
        }
        let item = rest.remove(0);
        cur.push(item);
        i = i + 1;
        if cur.len() == chunk_size {
            let ghost curpre = cur@;
            let full = cur.split_off(0);
            proof {
                assert(full@ =~= curpre);
                assert(cur@ =~= Seq::<T>::empty());
                assert((out@.len() + 1) * ck == out@.len() * ck + ck) by (nonlinear_arith);
            }
            out.push(full);
        }
    }
    if cur.len() > 0 {
        out.push(cur);
        proof {
            let m = out@.len() - 1;
            assert((n as int) - 1 == m * ck + (out@[m]@.len() - 1));
            assert(0 <= out@[m]@.len() - 1 < ck);
            lemma_fundamental_div_mod_converse((n as int) - 1, ck, m, out@[m]@.len() - 1);
        }
    } else {
        proof {
            if n > 0 {
                let m = out@.len() - 1;
                assert(n as int == (m + 1) * ck) by (nonlinear_arith)
                    requires
                        n as int == out@.len() * ck,
                        m == out@.len() - 1,
                ;
                assert((n as int) - 1 == m * ck + (ck - 1)) by (nonlinear_arith)
                    requires
                        n as int == (m + 1) * ck,
                        ck > 0,
                ;
                lemma_fundamental_div_mod_converse((n as int) - 1, ck, m, ck - 1);
                assert((n as int) - m * ck == ck) by (nonlinear_arith)
                    requires
                        n as int == (m + 1) * ck,
                ;
            } else {
                assert(out@.len() == 0) by (nonlinear_arith)
                    requires
                        out@.len() * ck == 0,
                        ck > 0,
                ;
            }
        }
    }
    out
}

// ---------------------------------------------------------------------------
// The ingestor.
// ---------------------------------------------------------------------------

/// Drives bulk ingestion: objects extracted from the export are grouped
/// into batches of `chunk_size` converted records.
#[derive(Debug, Clone, Copy, PartialEq, Eq, Structural)]
pub struct BulkIngestor {
    pub chunk_size: usize,
}

impl Default for BulkIngestor {
    /// The default batch size of five hundred records.
    fn default() -> (r: BulkIngestor)
        ensures
            r.chunk_size == 500,
    {
        BulkIngestor { chunk_size: 500 }
    }
}

/// What one ingestion run reports: record counts and the wall-clock time
/// the run took, in milliseconds.
#[derive(Debug, Clone, Copy, PartialEq, Eq, Structural)]
pub struct IngestStats {
    pub cards_processed: u64,
    pub cards_inserted: u64,
    pub cards_updated: u64,
    pub duration_millis: i64,
}

/// The records of all batches, in order.
pub open spec fn flatten_batches(batches: Seq<Seq<(OracleCard, Printing)>>) -> Seq<
    (OracleCard, Printing),
>
    decreases batches.len(),
{
    if batches.len() == 0 {
        Seq::empty()
    } else {
        flatten_batches(batches.drop_last()) + batches.last()
    }
}

/// The written pair is on file: the oracle row, all its faces, and the
/// printing, exactly as written.
pub open spec fn ingested_pair_on_file(st: Storage, oc: OracleCard, p: Printing) -> bool {
    &&& find_oracle_row(st.oracle_rows@, oc.oracle_id) matches Some(row) && row_card_eq(row, oc)
    &&& face_count(st.face_rows@, oc.oracle_id) == oc.faces@.len() as int
    &&& (forall|i: int|
        0 <= i < oc.faces@.len() ==> (#[trigger] find_face_row(
            st.face_rows@,
            oc.oracle_id,
            i,
        ) matches Some(fr) && face_eq(fr.face, oc.faces@[i])))
    &&& find_printing_row(st.printing_rows@, p.id) matches Some(q) && printing_eq(q, p)
}

/// The record at `k` is the last of the first `upto` records to write
/// its oracle identifier.
pub open spec fn last_oracle_write(flat: Seq<(OracleCard, Printing)>, k: int, upto: int) -> bool {
    forall|k2: int| k < k2 < upto ==> (#[trigger] flat[k2]).0.oracle_id != flat[k].0.oracle_id
}

/// The record at `k` is the last of the first `upto` records to write
/// its printing identifier.
pub open spec fn last_printing_write(flat: Seq<(OracleCard, Printing)>, k: int, upto: int) -> bool {
    forall|k2: int| k < k2 < upto ==> (#[trigger] flat[k2]).1.id != flat[k].1.id
}

/// The oracle card is on file as written: its row matches and each of
/// its faces stands at its index. Face rows above the card's own face
/// count are not spoken for: an earlier, wider write for the same
/// identifier leaves them in place.
pub open spec fn oracle_written_as(st: Storage, oc: OracleCard) -> bool {
    &&& find_oracle_row(st.oracle_rows@, oc.oracle_id) matches Some(row) && row_card_eq(row, oc)
    &&& (forall|i: int|
        0 <= i < oc.faces@.len() ==> (#[trigger] find_face_row(
            st.face_rows@,
            oc.oracle_id,
            i,
        ) matches Some(fr) && face_eq(fr.face, oc.faces@[i])))
}

/// The printing is on file as written.
pub open spec fn printing_written_as(st: Storage, p: Printing) -> bool {
    find_printing_row(st.printing_rows@, p.id) matches Some(q) && printing_eq(q, p)
}

proof fn lemma_flatten_prefix(s: Seq<Seq<(OracleCard, Printing)>>, bi: int)
    requires
        0 <= bi < s.len(),
    ensures
        flatten_batches(s.take(bi + 1)) == flatten_batches(s.take(bi)) + s[bi],
{
    assert(s.take(bi + 1).drop_last() =~= s.take(bi));
    assert(s.take(bi + 1).last() == s[bi]);
}

/// Flattening a prefix is a prefix of the flattening: the records of the
/// first batches stand first, in order.
proof fn lemma_flatten_take_bound(s: Seq<Seq<(OracleCard, Printing)>>, bi: int)
    requires
        0 <= bi < s.len(),
    ensures
        flatten_batches(s.take(bi)).len() + s[bi].len() <= flatten_batches(s).len(),
        forall|jj: int|
            0 <= jj < s[bi].len() ==> #[trigger] flatten_batches(s)[flatten_batches(
                s.take(bi),
            ).len() + jj] == s[bi][jj],
    decreases s.len() - bi,
{
    lemma_flatten_prefix(s, bi);
    if bi + 1 == s.len() {
        assert(s.take(bi + 1) =~= s);
    } else {
        lemma_flatten_take_bound(s, bi + 1);
        lemma_flatten_prefix(s, bi + 1);
        assert forall|jj: int| 0 <= jj < s[bi].len() implies #[trigger] flatten_batches(
            s,
        )[flatten_batches(s.take(bi)).len() + jj] == s[bi][jj] by {
            assert(flatten_batches(s.take(bi + 1))[flatten_batches(s.take(bi)).len() + jj] == s[
                bi][jj]);
            lemma_flatten_extends(s, bi + 1, flatten_batches(s.take(bi)).len() + jj);
        }
    }
}

/// A record of a flattened prefix keeps its place in the full flattening.
proof fn lemma_flatten_extends(s: Seq<Seq<(OracleCard, Printing)>>, b: int, idx: int)
    requires
        0 <= b <= s.len(),
        0 <= idx < flatten_batches(s.take(b)).len(),
    ensures
        flatten_batches(s.take(b)).len() <= flatten_batches(s).len(),
        flatten_batches(s)[idx] == flatten_batches(s.take(b))[idx],
    decreases s.len() - b,
{
    if b == s.len() {
        assert(s.take(b) =~= s);
    } else {
        lemma_flatten_prefix(s, b);
        lemma_flatten_extends(s, b + 1, idx);
        assert(flatten_batches(s.take(b + 1))[idx] == flatten_batches(s.take(b))[idx]);
    }
}

impl BulkIngestor {
    /// Writes every converted record through the card store, the oracle
    /// card first and then the printing, batch by batch in order. Every
    /// record counts as processed and inserted; no insert/update
    /// distinction is computed, so the updated count is always zero.
    ///
    /// Records apply strictly in order, so a later record for the same
    /// oracle or printing identifier always overwrites an earlier one:
    /// the last writer of each identifier is on file as written. When,
    /// further, the written oracle identifiers are pairwise distinct and
    /// none has face rows on file, every card's face count is exactly its
    /// own face list's length.
    pub fn ingest_into_db(&self, batches: Vec<Vec<(OracleCard, Printing)>>, store: &mut Storage) -> (r: Result<
        IngestStats,
        ScryfallError,
    >)
        requires
            old(store).wf(),
            flatten_batches(batches@.map_values(|b: Vec<(OracleCard, Printing)>| b@)).len()
                <= 0xffffffffffffffff,
        ensures
            final(store).wf(),
            ({
                let flat = flatten_batches(batches@.map_values(|b: Vec<(OracleCard, Printing)>| b@));
                &&& r matches Ok(st) && st.cards_processed == flat.len() && st.cards_inserted
                    == flat.len() && st.cards_updated == 0
                &&& (forall|k: int|
                    0 <= k < flat.len() && last_oracle_write(flat, k, flat.len() as int)
                        ==> oracle_written_as(*final(store), (#[trigger] flat[k]).0))
                &&& (forall|k: int|
                    0 <= k < flat.len() && last_printing_write(flat, k, flat.len() as int)
                        ==> printing_written_as(*final(store), (#[trigger] flat[k]).1))
                &&& ((forall|k: int, k2: int|
                    0 <= k < k2 < flat.len() ==> (#[trigger] flat[k]).0.oracle_id != (
                    #[trigger] flat[k2]).0.oracle_id) && (forall|k: int, k2: int|
                    0 <= k < k2 < flat.len() ==> (#[trigger] flat[k]).1.id != (
                    #[trigger] flat[k2]).1.id) && (forall|k: int|
                    0 <= k < flat.len() ==> face_count(
                        old(store).face_rows@,
                        (#[trigger] flat[k]).0.oracle_id,
                    ) == 0) ==> (forall|k: int|
                    0 <= k < flat.len() ==> {
                        let oc = (#[trigger] flat[k]).0;
                        let p = flat[k].1;
                        &&& find_oracle_row(final(store).oracle_rows@, oc.oracle_id) matches Some(
                            row,
                        ) && row_card_eq(row, oc)
                        &&& face_count(final(store).face_rows@, oc.oracle_id)
                            == oc.faces@.len() as int
                        &&& (forall|i: int|
                            0 <= i < oc.faces@.len() ==> (#[trigger] find_face_row(
                                final(store).face_rows@,
                                oc.oracle_id,
                                i,
                            ) matches Some(fr) && face_eq(fr.face, oc.faces@[i])))
                        &&& find_printing_row(final(store).printing_rows@, p.id) matches Some(q)
                            && printing_eq(q, p)
                    }))
            }),
    {
        let started = now_timestamp();
        let ghost bviews = batches@.map_values(|b: Vec<(OracleCard, Printing)>| b@);
        let ghost flat = flatten_batches(bviews);
        let ghost pre = *store;
        let ghost distinct_ok = (forall|k: int, k2: int|
            0 <= k < k2 < flat.len() ==> (#[trigger] flat[k]).0.oracle_id != (
            #[trigger] flat[k2]).0.oracle_id) && (forall|k: int, k2: int|
            0 <= k < k2 < flat.len() ==> (#[trigger] flat[k]).1.id != (#[trigger] flat[k2]).1.id)
            && (forall|k: int|
            0 <= k < flat.len() ==> face_count(pre.face_rows@, (#[trigger] flat[k]).0.oracle_id)
                == 0);
        let mut processed: u64 = 0;
        let nb = batches.len();
        let mut rest = batches;
        let mut bi: usize = 0;
        proof {
            assert(bviews.take(0) =~= Seq::<Seq<(OracleCard, Printing)>>::empty());
            assert(bviews.take(nb as int) =~= bviews);
            assert(flatten_batches(bviews.take(0)).len() == 0);
        }
        while bi < nb
            invariant
                old(store).wf(),
                store.wf(),
                pre == *old(store),
                nb == bviews.len(),
                0 <= bi <= nb,
                rest@.len() == nb - bi,
                forall|k: int| 0 <= k < rest@.len() ==> (#[trigger] rest@[k])@ == bviews[bi + k],
                flat == flatten_batches(bviews),
                flat.len() <= 0xffffffffffffffff,
                processed as int == flatten_batches(bviews.take(bi as int)).len(),
                distinct_ok == ((forall|k: int, k2: int|
                    0 <= k < k2 < flat.len() ==> (#[trigger] flat[k]).0.oracle_id != (
                    #[trigger] flat[k2]).0.oracle_id) && (forall|k: int, k2: int|
                    0 <= k < k2 < flat.len() ==> (#[trigger] flat[k]).1.id != (
                    #[trigger] flat[k2]).1.id) && (forall|k: int|
                    0 <= k < flat.len() ==> face_count(
                        pre.face_rows@,
                        (#[trigger] flat[k]).0.oracle_id,
                    ) == 0)),
                forall|k: int|
                    0 <= k < processed as int && last_oracle_write(flat, k, processed as int)
                        ==> oracle_written_as(*store, (#[trigger] flat[k]).0),
                forall|k: int|
                    0 <= k < processed as int && last_printing_write(flat, k, processed as int)
                        ==> printing_written_as(*store, (#[trigger] flat[k]).1),
                distinct_ok ==> (forall|k: int|
                    0 <= k < processed as int ==> ingested_pair_on_file(
                        *store,
                        (#[trigger] flat[k]).0,
                        flat[k].1,
                    )),
                distinct_ok ==> (forall|k: int|
                    processed as int <= k < flat.len() ==> face_count(
                        store.face_rows@,
                        (#[trigger] flat[k]).0.oracle_id,
                    ) == 0),
            decreases nb - bi,
        {
            proof {
                lemma_flatten_prefix(bviews, bi as int);
                lemma_flatten_take_bound(bviews, bi as int);
            }
            let ghost restpre = rest@;
            let batch = rest.remove(0);
            proof {
                assert(batch@ == bviews[bi as int]);
                assert forall|k: int| 0 <= k < rest@.len() implies (#[trigger] rest@[k])@
                    == bviews[bi + 1 + k] by {
                    assert(rest@[k] == restpre[k + 1]);
                }
            }
            let ghost base = flatten_batches(bviews.take(bi as int)).len() as int;
            let m = batch.len();
            let mut brest = batch;
            let mut j: usize = 0;
            while j < m
                invariant
                    old(store).wf(),
                    store.wf(),
                    pre == *old(store),
                    nb == bviews.len(),
                    0 <= bi < nb,
                    0 <= j <= m,
                    m == bviews[bi as int].len(),
                    brest@ =~= bviews[bi as int].skip(j as int),
                    flat == flatten_batches(bviews),
                    flat.len() <= 0xffffffffffffffff,
                    base == flatten_batches(bviews.take(bi as int)).len(),
                    base + m <= flat.len(),
                    forall|jj: int| 0 <= jj < m ==> flat[base + jj] == bviews[bi as int][jj],
                    processed as int == base + j,
                    distinct_ok == ((forall|k: int, k2: int|
                        0 <= k < k2 < flat.len() ==> (#[trigger] flat[k]).0.oracle_id != (
                        #[trigger] flat[k2]).0.oracle_id) && (forall|k: int, k2: int|
                        0 <= k < k2 < flat.len() ==> (#[trigger] flat[k]).1.id != (
                        #[trigger] flat[k2]).1.id) && (forall|k: int|
                        0 <= k < flat.len() ==> face_count(
                            pre.face_rows@,
                            (#[trigger] flat[k]).0.oracle_id,
                        ) == 0)),
                    forall|k: int|
                        0 <= k < processed as int && last_oracle_write(flat, k, processed as int)
                            ==> oracle_written_as(*store, (#[trigger] flat[k]).0),
                    forall|k: int|
                        0 <= k < processed as int && last_printing_write(
                            flat,
                            k,
                            processed as int,
                        ) ==> printing_written_as(*store, (#[trigger] flat[k]).1),
                    distinct_ok ==> (forall|k: int|
                        0 <= k < processed as int ==> ingested_pair_on_file(
                            *store,
                            (#[trigger] flat[k]).0,
                            flat[k].1,
                        )),
                    distinct_ok ==> (forall|k: int|
                        processed as int <= k < flat.len() ==> face_count(
                            store.face_rows@,
                            (#[trigger] flat[k]).0.oracle_id,
                        ) == 0),
                decreases m - j,
            {
                proof {
                    assert(brest@[0] == bviews[bi as int][j as int]);
                    assert(brest@.remove(0) =~= bviews[bi as int].skip(j + 1));
                    assert(flat[base + j] == bviews[bi as int][j as int]);
                }
                let pair = brest.remove(0);
                let ghost cnt = processed as int;
                let ghost stpre = *store;
                store.upsert_oracle(&pair.0);
                let ghost stmid = *store;
                store.upsert_printing(&pair.1);
                proof {
                    assert(pair == flat[cnt]);
                    assert forall|k: int|
                        0 <= k < cnt + 1 && last_oracle_write(flat, k, cnt + 1)
                        implies oracle_written_as(*store, (#[trigger] flat[k]).0) by {
                        if k == cnt {
                            assert(Storage::cards_unchanged(stmid, *store));
                            assert(find_oracle_row(store.oracle_rows@, pair.0.oracle_id)
                                == find_oracle_row(stmid.oracle_rows@, pair.0.oracle_id));
                            assert forall|i: int| 0 <= i < pair.0.faces@.len() implies (
                            #[trigger] find_face_row(
                                store.face_rows@,
                                pair.0.oracle_id,
                                i,
                            ) matches Some(fr) && face_eq(fr.face, pair.0.faces@[i])) by {
                                assert(find_face_row(store.face_rows@, pair.0.oracle_id, i)
                                    == find_face_row(stmid.face_rows@, pair.0.oracle_id, i));
                            }
                        } else {
                            assert(flat[cnt].0.oracle_id != flat[k].0.oracle_id);
                            assert(last_oracle_write(flat, k, cnt));
                            assert(oracle_written_as(stpre, flat[k].0));
                            assert(find_oracle_row(store.oracle_rows@, flat[k].0.oracle_id)
                                == find_oracle_row(stpre.oracle_rows@, flat[k].0.oracle_id));
                            assert forall|i: int| 0 <= i < flat[k].0.faces@.len()
                                implies #[trigger] find_face_row(
                                store.face_rows@,
                                flat[k].0.oracle_id,
                                i,
                            ) == find_face_row(stpre.face_rows@, flat[k].0.oracle_id, i) by {
                                assert(find_face_row(stmid.face_rows@, flat[k].0.oracle_id, i)
                                    == find_face_row(stpre.face_rows@, flat[k].0.oracle_id, i));
                            }
                        }
                    }
                    assert forall|k: int|
                        0 <= k < cnt + 1 && last_printing_write(flat, k, cnt + 1)
                        implies printing_written_as(*store, (#[trigger] flat[k]).1) by {
                        if k == cnt {
                        } else {
                            assert(flat[cnt].1.id != flat[k].1.id);
                            assert(last_printing_write(flat, k, cnt));
                            assert(printing_written_as(stpre, flat[k].1));
                            assert(find_printing_row(store.printing_rows@, flat[k].1.id)
                                == find_printing_row(stpre.printing_rows@, flat[k].1.id));
                        }
                    }
                    if distinct_ok {
                        assert(pair == flat[cnt]);
                        assert(face_count(stpre.face_rows@, pair.0.oracle_id) == 0);
                        assert(face_count(stmid.face_rows@, pair.0.oracle_id)
                            == pair.0.faces@.len() as int);
                        assert forall|k: int| 0 <= k < cnt + 1 implies ingested_pair_on_file(
                            *store,
                            (#[trigger] flat[k]).0,
                            flat[k].1,
                        ) by {
                            if k < cnt {
                                assert(ingested_pair_on_file(stpre, flat[k].0, flat[k].1));
                                assert(flat[k].0.oracle_id != pair.0.oracle_id);
                                assert(flat[k].1.id != pair.1.id);
                                assert(find_oracle_row(stmid.oracle_rows@, flat[k].0.oracle_id)
                                    == find_oracle_row(stpre.oracle_rows@, flat[k].0.oracle_id));
                                assert(face_count(stmid.face_rows@, flat[k].0.oracle_id)
                                    == face_count(stpre.face_rows@, flat[k].0.oracle_id));
                                assert forall|i: int| 0 <= i < flat[k].0.faces@.len()
                                    implies #[trigger] find_face_row(
                                    store.face_rows@,
                                    flat[k].0.oracle_id,
                                    i,
                                ) == find_face_row(stpre.face_rows@, flat[k].0.oracle_id, i) by {
                                    assert(find_face_row(stmid.face_rows@, flat[k].0.oracle_id, i)
                                        == find_face_row(
                                        stpre.face_rows@,
                                        flat[k].0.oracle_id,
                                        i,
                                    ));
                                }
                                assert(find_printing_row(store.printing_rows@, flat[k].1.id)
                                    == find_printing_row(stpre.printing_rows@, flat[k].1.id));
                            } else {
                                assert(flat[k] == pair);
                            }
                        }
                        assert forall|k: int| cnt + 1 <= k < flat.len() implies face_count(
                            store.face_rows@,
                            (#[trigger] flat[k]).0.oracle_id,
                        ) == 0 by {
                            assert(face_count(stpre.face_rows@, flat[k].0.oracle_id) == 0);
                            assert(flat[k].0.oracle_id != pair.0.oracle_id);
                        }
                    }
                }
                processed = processed + 1;
                j = j + 1;
            }
            proof {
                lemma_flatten_prefix(bviews, bi as int);
                assert(bviews[bi as int].skip(m as int) =~= Seq::<(OracleCard, Printing)>::empty());
            }
            bi = bi + 1;
        }
        let ended = now_timestamp();
        let di: i128 = (ended.millis as i128) - (started.millis as i128);
        let duration_millis: i64 = if di < 0 {
            0
        } else if di > 0x7fffffffffffffff {
            0x7fffffffffffffff
        } else {
            di as i64
        };
        Ok(
            IngestStats {
                cards_processed: processed,
                cards_inserted: processed,
                cards_updated: 0,
                duration_millis,
            },
        )
    }
}


// ---------------------------------------------------------------------------
// Extraction law: a run of well-formed objects is read back exactly.
// ---------------------------------------------------------------------------

/// The scanner recognizes the bytes as one complete object: scanned
/// alone, they emit exactly themselves and leave the scanner clean.
pub open spec fn object_recognized(o: Seq<u8>) -> bool {
    let end = scan_bytes(o);
    &&& o.len() > 0
    &&& end.depth == 0
    &&& !end.in_string
    &&& !end.escape
    &&& end.buf.len() == 0
    &&& end.emitted =~= seq![o]
}

/// Filler between objects: no braces and no quotes, as the commas,
/// whitespace and array brackets of an export file are.
pub open spec fn plain_separator(s: Seq<u8>) -> bool {
    forall|i: int| 0 <= i < s.len() ==> (#[trigger] s[i]) != 123 && s[i] != 125 && s[i] != 34
}

/// Objects laid out with separators around them:
/// `seps[0] obj[0] seps[1] obj[1] ... seps[n]`.
pub open spec fn interleave(seps: Seq<Seq<u8>>, objs: Seq<Seq<u8>>) -> Seq<u8>
    decreases objs.len(),
{
    if objs.len() == 0 {
        if seps.len() > 0 {
            seps[0]
        } else {
            Seq::empty()
        }
    } else {
        seps[0] + objs[0] + interleave(seps.skip(1), objs.skip(1))
    }
}

/// A clean scanner reads straight through separator bytes unchanged.
proof fn lemma_scan_separator(st: ScanState, s: Seq<u8>)
    requires
        st.depth == 0,
        !st.in_string,
        st.buf.len() == 0,
        plain_separator(s),
    ensures
        scan_from(st, s) == st,
    decreases s.len(),
{
    if s.len() > 0 {
        assert(s[0] != 123 && s[0] != 125 && s[0] != 34);
        let st1 = scan_step(st, s[0]);
        assert(st1 == st);
        assert forall|i: int| 0 <= i < s.skip(1).len() implies (#[trigger] s.skip(1)[i]) != 123
            && s.skip(1)[i] != 125 && s.skip(1)[i] != 34 by {
            assert(s.skip(1)[i] == s[i + 1]);
        }
        lemma_scan_separator(st, s.skip(1));
    }
}

proof fn lemma_scan_interleave_from(st: ScanState, seps: Seq<Seq<u8>>, objs: Seq<Seq<u8>>)
    requires
        st.depth == 0,
        !st.in_string,
        !st.escape,
        st.buf.len() == 0,
        seps.len() == objs.len() + 1,
        forall|i: int| 0 <= i < seps.len() ==> plain_separator(#[trigger] seps[i]),
        forall|i: int| 0 <= i < objs.len() ==> object_recognized(#[trigger] objs[i]),
    ensures
        ({
            let end = scan_from(st, interleave(seps, objs));
            &&& end.depth == 0
            &&& !end.in_string
            &&& !end.escape
            &&& end.buf.len() == 0
            &&& end.emitted =~= st.emitted + objs
        }),
    decreases objs.len(),
{
    if objs.len() == 0 {
        lemma_scan_separator(st, seps[0]);
        assert(st.emitted + objs =~= st.emitted);
    } else {
        let whole = interleave(seps, objs);
        assert(whole == seps[0] + objs[0] + interleave(seps.skip(1), objs.skip(1)));
        lemma_scan_from_concat(st, seps[0] + objs[0], interleave(seps.skip(1), objs.skip(1)));
        lemma_scan_from_concat(st, seps[0], objs[0]);
        assert((seps[0] + objs[0]) + interleave(seps.skip(1), objs.skip(1)) =~= whole);
        lemma_scan_separator(st, seps[0]);
        let st1 = scan_from(st, seps[0]);
        assert(st1 == st);
        // The object scans from a clean state as it does from the initial
        // state, with earlier emissions kept in front.
        assert(object_recognized(objs[0]));
        lemma_scan_emitted_frame(st, objs[0]);
        let core = ScanState {
            depth: st.depth,
            in_string: st.in_string,
            escape: st.escape,
            buf: st.buf,
            emitted: Seq::empty(),
        };
        assert(core.buf =~= Seq::<u8>::empty());
        assert(core == scan_init());
        let st2 = scan_from(st, objs[0]);
        assert(st2.depth == 0 && !st2.in_string && !st2.escape && st2.buf.len() == 0);
        assert(st2.emitted =~= st.emitted + seq![objs[0]]);
        assert forall|i: int| 0 <= i < seps.skip(1).len() implies plain_separator(
            #[trigger] seps.skip(1)[i],
        ) by {
            assert(seps.skip(1)[i] == seps[i + 1]);
        }
        assert forall|i: int| 0 <= i < objs.skip(1).len() implies object_recognized(
            #[trigger] objs.skip(1)[i],
        ) by {
            assert(objs.skip(1)[i] == objs[i + 1]);
        }
        lemma_scan_interleave_from(st2, seps.skip(1), objs.skip(1));
        assert((st.emitted + seq![objs[0]]) + objs.skip(1) =~= st.emitted + objs);
        assert(scan_from(st2, interleave(seps.skip(1), objs.skip(1))).emitted =~= st2.emitted
            + objs.skip(1));
    }
}

/// Streaming extraction is exact: a file laid out as any number of
/// recognized objects with plain filler around them scans to exactly
/// those objects, in file order — whatever escaped quotes or braces their
/// strings hold, since recognition is defined by the same scan.
pub proof fn lemma_extraction_exact(seps: Seq<Seq<u8>>, objs: Seq<Seq<u8>>)
    requires
        seps.len() == objs.len() + 1,
        forall|i: int| 0 <= i < seps.len() ==> plain_separator(#[trigger] seps[i]),
        forall|i: int| 0 <= i < objs.len() ==> object_recognized(#[trigger] objs[i]),
    ensures
        scan_bytes(interleave(seps, objs)).emitted =~= objs,
{
    lemma_scan_interleave_from(scan_init(), seps, objs);
    assert(Seq::<Seq<u8>>::empty() + objs =~= objs);
}

} // verus!
