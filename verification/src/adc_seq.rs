//! Sequences of conversions: which channels in which order, and their control
//! words.
//!
//! A sequence converts its members in order into the first result registers,
//! until one whose control word has the end mark. Each member has its own
//! channel and its own reference.
use vstd::prelude::*;

verus! {

/// Longest sequence: the registers to which the one sample time applies.
pub const MAX_SEQUENCE: usize = 8;

/// End of the sequence.
pub const EOS: u16 = 0x0080;

/// Conversion against the reference rather than the supply.
pub const VRSEL_VREF: u16 = 0x0100;

/// Channel of the temperature sensor.
pub const CH_TEMPERATURE: u8 = 30;

/// Channel of the supply monitor.
pub const CH_SUPPLY_HALF: u8 = 31;

/// The on-chip source behind a channel.
#[derive(Clone, Copy, PartialEq, Eq, Structural, Debug)]
pub enum SeqInternal {
    /// A pin.
    Pin,
    /// Half the supply.
    SupplyHalf,
    /// The temperature sensor.
    Temperature,
}

/// One member of a sequence.
#[derive(Clone, Copy, PartialEq, Eq, Structural, Debug)]
pub struct SeqMember {
    /// Input channel.
    pub channel: u8,
    /// Against the reference (`true`) or the supply.
    pub vref: bool,
    /// On-chip source.
    pub internal: SeqInternal,
}

impl SeqMember {
    /// A channel against the supply.
    pub fn channel(channel: u8) -> (r: SeqMember)
        ensures
            r == (SeqMember { channel, vref: false, internal: SeqInternal::Pin }),
    {
        SeqMember { channel, vref: false, internal: SeqInternal::Pin }
    }

    /// A channel against the reference.
    pub fn channel_vref(channel: u8) -> (r: SeqMember)
        ensures
            r == (SeqMember { channel, vref: true, internal: SeqInternal::Pin }),
    {
        SeqMember { channel, vref: true, internal: SeqInternal::Pin }
    }

    /// Half the supply against the supply: always near half scale.
    pub fn supply_half() -> (r: SeqMember)
        ensures
            r == (SeqMember {
                channel: CH_SUPPLY_HALF,
                vref: false,
                internal: SeqInternal::SupplyHalf,
            }),
    {
        SeqMember { channel: CH_SUPPLY_HALF, vref: false, internal: SeqInternal::SupplyHalf }
    }

    /// Half the supply against the reference.
    pub fn supply_vref() -> (r: SeqMember)
        ensures
            r == (SeqMember {
                channel: CH_SUPPLY_HALF,
                vref: true,
                internal: SeqInternal::SupplyHalf,
            }),
    {
        SeqMember { channel: CH_SUPPLY_HALF, vref: true, internal: SeqInternal::SupplyHalf }
    }

    /// The temperature sensor against the reference, which also biases it.
    pub fn temperature() -> (r: SeqMember)
        ensures
            r == (SeqMember {
                channel: CH_TEMPERATURE,
                vref: true,
                internal: SeqInternal::Temperature,
            }),
    {
        SeqMember { channel: CH_TEMPERATURE, vref: true, internal: SeqInternal::Temperature }
    }

    /// Whether the member needs the reference.
    pub fn needs_vref(&self) -> (r: bool)
        ensures
            r == self.vref,
    {
        self.vref
    }

    /// The control word of the member.
    pub open spec fn word(self, last: bool) -> int {
        self.channel % 32 + (if self.vref {
            VRSEL_VREF as int
        } else {
            0
        }) + (if last {
            EOS as int
        } else {
            0
        })
    }
}

/// Why a sequence cannot be run.
#[derive(Clone, Copy, PartialEq, Eq, Structural, Debug)]
pub enum SequenceError {
    /// It has no members.
    Empty,
    /// It has more than [`MAX_SEQUENCE`] members.
    TooLong,
    /// The buffer has no room for every result.
    BufferTooShort,
    /// A channel number is above 31.
    ChannelOutOfRange,
    /// A member needs the reference, which the caller does not have.
    NeedsRef,
    /// The DMA channel did not collect every result in time.
    DmaIncomplete,
}

/// What is wrong with one member.
pub open spec fn member_fault(member: SeqMember, have_ref: bool) -> Option<SequenceError> {
    if member.channel > 31 {
        Some(SequenceError::ChannelOutOfRange)
    } else if member.vref && !have_ref {
        Some(SequenceError::NeedsRef)
    } else {
        None
    }
}

/// What is wrong with the first faulty one of the members.
pub open spec fn first_fault(members: Seq<SeqMember>, have_ref: bool) -> Option<SequenceError>
    decreases members.len(),
{
    if members.len() == 0 {
        None
    } else {
        match first_fault(members.drop_last(), have_ref) {
            Some(e) => Some(e),
            None => member_fault(members.last(), have_ref),
        }
    }
}

/// Whether a sequence can be run, and what is wrong first where it cannot.
pub open spec fn verdict(
    members: Seq<SeqMember>,
    results_len: usize,
    have_ref: bool,
) -> Result<(), SequenceError> {
    if members.len() == 0 {
        Err(SequenceError::Empty)
    } else if members.len() > MAX_SEQUENCE {
        Err(SequenceError::TooLong)
    } else if results_len < members.len() {
        Err(SequenceError::BufferTooShort)
    } else {
        match first_fault(members, have_ref) {
            Some(e) => Err(e),
            None => Ok(()),
        }
    }
}

/// Checks the members against the buffer and the caller's reference.
pub fn validate(members: &[SeqMember], results_len: usize, have_ref: bool) -> (r: Result<
    (),
    SequenceError,
>)
    ensures
        r == verdict(members@, results_len, have_ref),
{
    if members.len() == 0 {
        return Err(SequenceError::Empty);
    }
    if members.len() > MAX_SEQUENCE {
        return Err(SequenceError::TooLong);
    }
    if results_len < members.len() {
        return Err(SequenceError::BufferTooShort);
    }
    let mut i: usize = 0;
    while i < members.len()
        invariant
            0 < members@.len() <= MAX_SEQUENCE,
            members@.len() <= results_len,
            i <= members@.len(),
            first_fault(members@.take(i as int), have_ref) is None,
        decreases members@.len() - i,
    {
        let m = members[i];
        assert(members@.take(i + 1).drop_last() =~= members@.take(i as int));
        if m.channel > 31 {
            proof {
                lemma_fault_stays(members@, i + 1, have_ref);
            }
            return Err(SequenceError::ChannelOutOfRange);
        }
        if m.vref && !have_ref {
            proof {
                lemma_fault_stays(members@, i + 1, have_ref);
            }
            return Err(SequenceError::NeedsRef);
        }
        i = i + 1;
    }
    assert(members@.take(i as int) =~= members@);
    Ok(())
}

/// A fault among the first members is the first fault of all.
proof fn lemma_fault_stays(members: Seq<SeqMember>, n: int, have_ref: bool)
    requires
        0 <= n <= members.len(),
        first_fault(members.take(n), have_ref) is Some,
    ensures
        first_fault(members, have_ref) == first_fault(members.take(n), have_ref),
    decreases members.len() - n,
{
    if n < members.len() {
        assert(members.take(n + 1).drop_last() =~= members.take(n));
        lemma_fault_stays(members, n + 1, have_ref);
    } else {
        assert(members.take(n) =~= members);
    }
}

/// The control word of one member: channel, reference, and the end mark on the
/// last.
pub fn mctl_word(member: &SeqMember, last: bool) -> (r: u16)
    ensures
        r == member.word(last),
{
    (member.channel % 32) as u16 + (if member.vref {
        VRSEL_VREF
    } else {
        0
    }) + (if last {
        EOS
    } else {
        0
    })
}

/// The control words of all members.
pub fn encode_mctl(members: &[SeqMember], out: &mut [u16])
    requires
        members@.len() > 0,
        old(out)@.len() >= members@.len(),
    ensures
        final(out)@.len() == old(out)@.len(),
        forall|i: int|
            0 <= i < members@.len() ==> #[trigger] final(out)@[i] == members@[i].word(
                i == members@.len() - 1,
            ),
        forall|i: int|
            members@.len() <= i < old(out)@.len() ==> #[trigger] final(out)@[i] == old(out)@[i],
{
    let last: usize = members.len() - 1;
    let mut i: usize = 0;
    while i < members.len()
        invariant
            last == members@.len() - 1,
            i <= members@.len() <= out@.len(),
            out@.len() == old(out)@.len(),
            forall|k: int| 0 <= k < i ==> #[trigger] out@[k] == members@[k].word(k == last),
            forall|k: int| i <= k < out@.len() ==> #[trigger] out@[k] == old(out)@[k],
        decreases members@.len() - i,
    {
        out[i] = mctl_word(&members[i], i == last);
        i = i + 1;
    }
}

/// Some member has the source `internal`.
pub open spec fn uses(members: Seq<SeqMember>, internal: SeqInternal) -> bool {
    exists|i: int| 0 <= i < members.len() && (#[trigger] members[i]).internal == internal
}

/// Which internal sources have to be connected: the supply monitor, and the
/// temperature sensor.
pub fn map_bits(members: &[SeqMember]) -> (r: (bool, bool))
    ensures
        r.0 == uses(members@, SeqInternal::SupplyHalf),
        r.1 == uses(members@, SeqInternal::Temperature),
{
    let mut batmap: bool = false;
    let mut tcmap: bool = false;
    let mut i: usize = 0;
    while i < members.len()
        invariant
            i <= members@.len(),
            batmap == exists|k: int|
                0 <= k < i && (#[trigger] members@[k]).internal == SeqInternal::SupplyHalf,
            tcmap == exists|k: int|
                0 <= k < i && (#[trigger] members@[k]).internal == SeqInternal::Temperature,
        decreases members@.len() - i,
    {
        let m = members[i];
        match m.internal {
            SeqInternal::Pin => {},
            SeqInternal::SupplyHalf => {
                batmap = true;
            },
            SeqInternal::Temperature => {
                tcmap = true;
            },
        }
        i = i + 1;
    }
    (batmap, tcmap)
}

/// The end mark stands on the last member and nowhere else.
pub proof fn lemma_one_end(member: SeqMember, last: bool)
    ensures
        member.word(last) / 0x80 % 2 == if last {
            1int
        } else {
            0
        },
{
}

/// Members with valid channels that differ in channel or reference have
/// different words.
pub proof fn lemma_words_differ(a: SeqMember, b: SeqMember, last: bool)
    requires
        a.channel <= 31,
        b.channel <= 31,
        a.word(last) == b.word(last),
    ensures
        a.channel == b.channel,
        a.vref == b.vref,
{
}

/// What the converter makes of a member's word: the channel in bits 4:0, bit 8
/// for the reference, bit 7 for the end of the sequence, and nothing else.
pub proof fn lemma_word_decoded(member: SeqMember, last: bool)
    requires
        member.channel <= 31,
    ensures
        member.word(last) % 32 == member.channel,
        member.word(last) / 32 % 4 == 0,
        member.word(last) / 128 % 2 == if last {
            1int
        } else {
            0
        },
        member.word(last) / 256 == if member.vref {
            1int
        } else {
            0
        },
{
}

/// A sequence is accepted exactly if it has one to eight members, the buffer has
/// room for as many results, every channel exists, and the reference is there if
/// a member needs it.
pub proof fn lemma_accepted(members: Seq<SeqMember>, results_len: usize, have_ref: bool)
    ensures
        verdict(members, results_len, have_ref) is Ok <==> {
            &&& 1 <= members.len() <= 8
            &&& members.len() <= results_len
            &&& forall|i: int|
                0 <= i < members.len() ==> {
                    &&& (#[trigger] members[i]).channel < 32
                    &&& members[i].vref ==> have_ref
                }
        },
{
    lemma_no_fault(members, have_ref);
}

proof fn lemma_no_fault(members: Seq<SeqMember>, have_ref: bool)
    ensures
        first_fault(members, have_ref) is None <==> forall|i: int|
            0 <= i < members.len() ==> {
                &&& (#[trigger] members[i]).channel < 32
                &&& members[i].vref ==> have_ref
            },
    decreases members.len(),
{
    if members.len() > 0 {
        let front = members.drop_last();
        lemma_no_fault(front, have_ref);
        assert(forall|i: int| 0 <= i < front.len() ==> front[i] == members[i]);
        if first_fault(members, have_ref) is None {
            assert forall|i: int| 0 <= i < members.len() implies {
                &&& (#[trigger] members[i]).channel < 32
                &&& members[i].vref ==> have_ref
            } by {
                if i < front.len() {
                    assert(front[i] == members[i]);
                }
            }
        } else if first_fault(front, have_ref) is Some {
            let j = choose|i: int|
                0 <= i < front.len() && !({
                    &&& (#[trigger] front[i]).channel < 32
                    &&& front[i].vref ==> have_ref
                });
            assert(members[j] == front[j]);
        } else {
            assert(members[members.len() - 1] == members.last());
        }
    }
}

/// Of several faults the first that holds is reported: no members, too many,
/// no room, and then the first member that is at fault, for a channel that does
/// not exist before a reference that is not there.
pub proof fn lemma_refused(members: Seq<SeqMember>, results_len: usize, have_ref: bool, i: int)
    ensures
        members.len() == 0 ==> verdict(members, results_len, have_ref) == Err::<(), SequenceError>(
            SequenceError::Empty,
        ),
        members.len() > 8 ==> verdict(members, results_len, have_ref) == Err::<(), SequenceError>(
            SequenceError::TooLong,
        ),
        0 < members.len() <= 8 && results_len < members.len() ==> verdict(
            members,
            results_len,
            have_ref,
        ) == Err::<(), SequenceError>(SequenceError::BufferTooShort),
        members.len() <= 8 && results_len >= members.len() && 0 <= i < members.len() && (forall|
            j: int,
        |
            0 <= j < i ==> (#[trigger] members[j]).channel < 32 && (members[j].vref ==> have_ref))
            ==> {
            &&& members[i].channel >= 32 ==> verdict(members, results_len, have_ref) == Err::<
                (),
                SequenceError,
            >(SequenceError::ChannelOutOfRange)
            &&& members[i].channel < 32 && members[i].vref && !have_ref ==> verdict(
                members,
                results_len,
                have_ref,
            ) == Err::<(), SequenceError>(SequenceError::NeedsRef)
        },
{
    if 0 <= i < members.len() && (forall|j: int|
        0 <= j < i ==> (#[trigger] members[j]).channel < 32 && (members[j].vref ==> have_ref)) {
        let front = members.take(i);
        assert forall|j: int| 0 <= j < front.len() implies {
            &&& (#[trigger] front[j]).channel < 32
            &&& front[j].vref ==> have_ref
        } by {
            assert(front[j] == members[j]);
        }
        lemma_no_fault(front, have_ref);
        let upto = members.take(i + 1);
        assert(upto.drop_last() =~= front);
        assert(upto.last() == members[i]);
        if first_fault(upto, have_ref) is Some {
            lemma_fault_stays(members, i + 1, have_ref);
        }
    }
}

/// Which bits and values the registers have.
pub proof fn lemma_layout()
    ensures
        MAX_SEQUENCE == 8,
        EOS == 128,
        VRSEL_VREF == 0x0100,
        CH_TEMPERATURE == 30,
        CH_SUPPLY_HALF == 31,
{
}

/// A source is used by a sequence exactly if one of its members uses it.
pub proof fn lemma_sources_used(members: Seq<SeqMember>, more: SeqMember, internal: SeqInternal)
    ensures
        !uses(Seq::empty(), internal),
        uses(members.push(more), internal) <==> uses(members, internal) || more.internal == internal,
{
    let all = members.push(more);
    if uses(members, internal) {
        let i = choose|i: int|
            0 <= i < members.len() && (#[trigger] members[i]).internal == internal;
        assert(all[i].internal == internal);
    }
    if more.internal == internal {
        assert(all[members.len() as int].internal == internal);
    }
    if uses(all, internal) {
        let i = choose|i: int| 0 <= i < all.len() && (#[trigger] all[i]).internal == internal;
        if i < members.len() {
            assert(members[i].internal == internal);
        }
    }
}

} // verus!
