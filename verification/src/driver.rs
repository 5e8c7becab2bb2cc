//! Ingestion decisions: what to do with each event the streaming
//! collaborator delivers — add the block, skip a malformed one, reject a
//! chain reorganization, and finalize plus rotate when an epoch is full.
//! The surrounding process performs the I/O and hands the events in.

use vstd::prelude::*;

use crate::accumulator::{hex_bytes, hex_decode, get_value_for_block, valid_hex, EPOCH_SIZE};
use crate::builder::{
    block_err, block_oversized, block_record_stream, trailer_payload, version_bytes, EraBuilder,
};
use crate::errors::{EraError, WireField};
use crate::record::{record_enc, E2StoreType};
use crate::rlp::clone_bytes;
use crate::wire::VerifiableBlock;

verus! {

broadcast use vstd::seq::Seq::add_empty_left;

/// What the streaming collaborator can deliver: a fully decoded new
/// block, or a chain-reorganization marker, which this encoder does not
/// support.
pub enum BlockResponse {
    New(VerifiableBlock),
    Undo,
}

/// What processing one event did to the archive being built.
pub enum DriverOutcome {
    /// The block was added; the epoch is not complete yet.
    Added,
    /// The block was malformed and skipped; nothing was written.
    Skipped(EraError),
    /// The epoch was completed: the finished archive bytes, with the
    /// builder reset for the next epoch.
    Finalized(Vec<u8>),
}

/// The abstract state of a builder: output bytes, index offsets, starting
/// number.
pub open spec fn builder_state(b: EraBuilder) -> (Seq<u8>, Seq<u64>, Option<u64>) {
    (b.writer@, b.indexes@, b.starting)
}

/// The state of a freshly bound builder.
pub open spec fn initial_state() -> (Seq<u8>, Seq<u64>, Option<u64>) {
    (Seq::empty(), Seq::empty(), None)
}

/// One `add` call, on the abstract state.
pub open spec fn add_step(st: (Seq<u8>, Seq<u64>, Option<u64>), b: VerifiableBlock) -> Result<
    (Seq<u8>, Seq<u64>, Option<u64>),
    EraError,
> {
    match block_err(b) {
        Some(e) => Err(e),
        None => if block_oversized(b) {
            Err(EraError::OversizedRecord)
        } else {
            Ok(
                (
                    st.0 + (if st.2 is None {
                        version_bytes()
                    } else {
                        Seq::<u8>::empty()
                    }) + block_record_stream(b),
                    st.1.push((st.0.len() + (if st.2 is None {
                        8int
                    } else {
                        0int
                    })) as u64),
                    if st.2 is None {
                        Some(b.number)
                    } else {
                        st.2
                    },
                ),
            )
        },
    }
}

/// A sequence of `add` calls, stopping at the first failure.
pub open spec fn run_blocks(
    st: (Seq<u8>, Seq<u64>, Option<u64>),
    blocks: Seq<VerifiableBlock>,
) -> Result<(Seq<u8>, Seq<u64>, Option<u64>), EraError>
    decreases blocks.len(),
{
    if blocks.len() == 0 {
        Ok(st)
    } else {
        match run_blocks(st, blocks.drop_last()) {
            Err(e) => Err(e),
            Ok(m) => add_step(m, blocks.last()),
        }
    }
}

/// One `finalize` call, on the abstract state.
pub open spec fn finalize_step(st: (Seq<u8>, Seq<u64>, Option<u64>), acc: Seq<u8>) -> Result<
    Seq<u8>,
    EraError,
> {
    let count = st.1.len() as int;
    let w = st.0.len() + 8 + acc.len();
    if acc.len() > u32::MAX || 16 + 8 * count > u32::MAX {
        Err(EraError::OversizedRecord)
    } else if w + 16 + 8 * count > i64::MAX {
        Err(EraError::OversizedArchive)
    } else {
        Ok(
            st.0 + record_enc(E2StoreType::Accumulator, acc) + record_enc(
                E2StoreType::BlockIndex,
                trailer_payload(st.2->Some_0, st.1, w as int),
            ),
        )
    }
}

/// The archive a whole run produces: every block added to a fresh
/// builder, then finalized with the accumulator value.
pub open spec fn archive_of(blocks: Seq<VerifiableBlock>, acc: Seq<u8>) -> Result<
    Seq<u8>,
    EraError,
> {
    match run_blocks(initial_state(), blocks) {
        Err(e) => Err(e),
        Ok(st) => finalize_step(st, acc),
    }
}

proof fn lemma_run_err_prefix(
    st: (Seq<u8>, Seq<u64>, Option<u64>),
    blocks: Seq<VerifiableBlock>,
    k: int,
)
    requires
        0 <= k <= blocks.len(),
        run_blocks(st, blocks.take(k)) is Err,
    ensures
        run_blocks(st, blocks) == run_blocks(st, blocks.take(k)),
    decreases blocks.len(),
{
    if k < blocks.len() {
        let d = blocks.drop_last();
        assert(blocks.take(k) =~= d.take(k));
        lemma_run_err_prefix(st, d, k);
    } else {
        assert(blocks.take(k) =~= blocks);
    }
}

/// Law: the archive is a function of the block sequence and the
/// accumulator value alone, so a builder that is reset and fed the same
/// blocks, then finalized with the same value, produces a byte-identical
/// archive.
pub proof fn lemma_rebuild_identical(
    st1: (Seq<u8>, Seq<u64>, Option<u64>),
    st2: (Seq<u8>, Seq<u64>, Option<u64>),
    blocks: Seq<VerifiableBlock>,
    acc: Seq<u8>,
)
    requires
        st1 == initial_state(),
        st2 == initial_state(),
    ensures
        run_blocks(st1, blocks) == run_blocks(st2, blocks),
        run_blocks(st1, blocks) matches Ok(m) ==> finalize_step(m, acc) == archive_of(blocks, acc),
{
}

/// Builds one whole archive from a block sequence and an accumulator
/// value, through a fresh builder; the bytes are exactly `archive_of`.
pub fn build_archive(blocks: &Vec<VerifiableBlock>, header_accumulator: &Vec<u8>) -> (r: Result<
    Vec<u8>,
    EraError,
>)
    requires
        blocks@.len() >= 1,
    ensures
        match r {
            Ok(v) => archive_of(blocks@, header_accumulator@) == Ok::<_, EraError>(v@),
            Err(e) => archive_of(blocks@, header_accumulator@) == Err::<Seq<u8>, _>(e),
        },
{
    let mut builder = EraBuilder::new(Vec::new());
    let mut i: usize = 0;
    while i < blocks.len()
        invariant
            0 <= i <= blocks@.len(),
            builder.wf(),
            i > 0 ==> builder.starting is Some,
            run_blocks(initial_state(), blocks@.take(i as int)) == Ok::<_, EraError>(
                builder_state(builder),
            ),
        decreases blocks@.len() - i,
    {
        proof {
            assert(blocks@.take(i + 1).drop_last() =~= blocks@.take(i as int));
            assert(blocks@.take(i + 1).last() == blocks@[i as int]);
        }
        match builder.add(&blocks[i]) {
            Ok(_) => {},
            Err(e) => {
                proof {
                    lemma_run_err_prefix(initial_state(), blocks@, i + 1);
                }
                return Err(e);
            },
        }
        i += 1;
    }
    proof {
        assert(blocks@.take(blocks@.len() as int) =~= blocks@);
    }
    let acc = clone_bytes(header_accumulator);
    let ghost acc_view = acc@;
    match builder.finalize(acc) {
        Ok(_) => Ok(builder.take_sink()),
        Err(e) => Err(e),
    }
}

/// Completes the current epoch: looks up and decodes the accumulator
/// value for the archive's starting block, finalizes the archive, hands
/// its bytes out, and resets the builder for the next epoch.
fn finalize_epoch(builder: &mut EraBuilder, accumulator_values: &Vec<String>) -> (r: Result<
    Vec<u8>,
    EraError,
>)
    requires
        old(builder).wf(),
        old(builder).starting is Some,
    ensures
        final(builder).wf(),
        ({
            let post = builder_state(*old(builder));
            let epoch = (post.2->Some_0) / EPOCH_SIZE;
            if epoch >= accumulator_values@.len() {
                r matches Err(e) && e == EraError::NoAccumulatorForEpoch && builder_state(
                    *final(builder),
                ) == post
            } else if !valid_hex(accumulator_values@[epoch as int]@) {
                r matches Err(e) && e == EraError::MalformedWireField(WireField::AccumulatorValue)
                    && builder_state(*final(builder)) == post
            } else {
                match finalize_step(post, hex_bytes(accumulator_values@[epoch as int]@)) {
                    Err(e) => r matches Err(e2) && e2 == e && builder_state(*final(builder))
                        == post,
                    Ok(bytes) => r matches Ok(v) && v@ == bytes && builder_state(*final(builder))
                        == initial_state(),
                }
            }
        }),
{
    let start: u64 = match builder.starting_number() {
        Some(s) => s,
        None => {
            proof {
                assert(false);
            }
            0
        },
    };
    let value = match get_value_for_block(accumulator_values, start) {
        Some(v) => v,
        None => {
            return Err(EraError::NoAccumulatorForEpoch);
        },
    };
    let acc = match hex_decode(value.as_str()) {
        Ok(a) => a,
        Err(e) => {
            return Err(e);
        },
    };
    match builder.finalize(acc) {
        Ok(_) => {},
        Err(e) => {
            return Err(e);
        },
    }
    let archive = builder.take_sink();
    builder.reset(Vec::new());
    Ok(archive)
}

/// Processes one event from the streaming collaborator. A reorganization
/// marker is a hard error. A malformed block is skipped, with the error
/// reported for logging. A well-formed block is added; when it completes
/// the epoch, the accumulator value for the archive's starting block is
/// looked up and decoded, the archive is finalized and handed out, and
/// the builder is reset for the next epoch. A missing accumulator entry,
/// an undecodable one, and a failed finalization are hard errors.
pub fn process_event(
    builder: &mut EraBuilder,
    response: BlockResponse,
    accumulator_values: &Vec<String>,
) -> (r: Result<DriverOutcome, EraError>)
    requires
        old(builder).wf(),
    ensures
        final(builder).wf(),
        match response {
            BlockResponse::Undo => r matches Err(e) && e == EraError::UndoUnsupported
                && builder_state(*final(builder)) == builder_state(*old(builder)),
            BlockResponse::New(b) => match add_step(builder_state(*old(builder)), b) {
                Err(e) => r matches Ok(o) && (o matches DriverOutcome::Skipped(e2) && e2 == e)
                    && builder_state(*final(builder)) == builder_state(*old(builder)),
                Ok(post) => if post.1.len() != EPOCH_SIZE {
                    r matches Ok(o) && o is Added && builder_state(*final(builder)) == post
                } else {
                    let epoch = (post.2->Some_0) / EPOCH_SIZE;
                    if epoch >= accumulator_values@.len() {
                        r matches Err(e) && e == EraError::NoAccumulatorForEpoch
                            && builder_state(*final(builder)) == post
                    } else if !valid_hex(accumulator_values@[epoch as int]@) {
                        r matches Err(e) && e == EraError::MalformedWireField(
                            WireField::AccumulatorValue,
                        ) && builder_state(*final(builder)) == post
                    } else {
                        match finalize_step(post, hex_bytes(accumulator_values@[epoch as int]@)) {
                            Err(e) => r matches Err(e2) && e2 == e && builder_state(
                                *final(builder),
                            ) == post,
                            Ok(bytes) => r matches Ok(o) && (o matches DriverOutcome::Finalized(v)
                                && v@ == bytes) && builder_state(*final(builder))
                                == initial_state(),
                        }
                    }
                },
            },
        },
{
    let block = match response {
        BlockResponse::Undo => {
            return Err(EraError::UndoUnsupported);
        },
        BlockResponse::New(b) => b,
    };
    match builder.add(&block) {
        Ok(_) => {},
        Err(e) => {
            return Ok(DriverOutcome::Skipped(e));
        },
    }
    if builder.len() != EPOCH_SIZE as usize {
        return Ok(DriverOutcome::Added);
    }
    match finalize_epoch(builder, accumulator_values) {
        Ok(archive) => Ok(DriverOutcome::Finalized(archive)),
        Err(e) => Err(e),
    }
}

} // verus!
