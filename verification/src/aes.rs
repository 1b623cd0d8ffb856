//! AES-128, -192 and -256 with the accelerator.
//!
//! The engine does one block at a time: load a key, write sixteen bytes, wait,
//! read sixteen bytes. Runs of blocks and the chaining of blocks (CBC) are made
//! of that here. Nothing is padded: a length must be a whole number of blocks.
//!
//! The direction is set before the key is loaded, and setting it drops the
//! loaded key, so the driver keeps the key and loads it again when the
//! direction changes. The registers take a block as little-endian words.
use vstd::prelude::*;

use crate::bus::{Bus, Cond, Hardware, Stalled, Step};
use crate::pac::AesAccelerator;

verus! {

broadcast use crate::trace::group_growth;

/// Bytes per block.
pub const BLOCK_SIZE: usize = 16;

/// Control register.
pub const AESACTL0: u32 = 0x09C0;

/// Status register.
pub const AESASTAT: u32 = 0x09C4;

/// Key words go here.
pub const AESAKEY: u32 = 0x09C6;

/// Data words go here.
pub const AESADIN: u32 = 0x09C8;

/// Result words come from here.
pub const AESADOUT: u32 = 0x09CA;

/// Reset of the module.
pub const AESSWRST: u16 = 0x0080;

/// The engine works.
pub const AESBUSY: u16 = 0x0001;

/// A whole key was written.
pub const AESKEYWR: u16 = 0x0002;

/// A key.
pub enum Key {
    /// For AES-128.
    Aes128([u8; 16]),
    /// For AES-192.
    Aes192([u8; 24]),
    /// For AES-256.
    Aes256([u8; 32]),
}

impl Clone for Key {
    fn clone(&self) -> (r: Self)
        ensures
            r == *self,
    {
        match self {
            Key::Aes128(k) => Key::Aes128(*k),
            Key::Aes192(k) => Key::Aes192(*k),
            Key::Aes256(k) => Key::Aes256(*k),
        }
    }
}

impl Key {
    /// The bytes of the key.
    pub open spec fn view(self) -> Seq<u8> {
        match self {
            Key::Aes128(k) => k@,
            Key::Aes192(k) => k@,
            Key::Aes256(k) => k@,
        }
    }

    /// The key length field of the control register.
    pub open spec fn length_field(self) -> u16 {
        match self {
            Key::Aes128(_) => 0x0000,
            Key::Aes192(_) => 0x0004,
            Key::Aes256(_) => 0x0008,
        }
    }

    fn bytes(&self) -> (r: &[u8])
        ensures
            r@ == self@,
            r@.len() % 2 == 0,
    {
        match self {
            Key::Aes128(k) => k.as_slice(),
            Key::Aes192(k) => k.as_slice(),
            Key::Aes256(k) => k.as_slice(),
        }
    }

    fn length_bits(&self) -> (r: u16)
        ensures
            r == self.length_field(),
    {
        match self {
            Key::Aes128(_) => 0x0000,
            Key::Aes192(_) => 0x0004,
            Key::Aes256(_) => 0x0008,
        }
    }
}

/// Why an operation failed.
#[derive(Clone, Copy, PartialEq, Eq, Structural, Debug)]
pub enum Error {
    /// The length is not a multiple of the block size.
    NotBlockAligned,
    /// The engine did not finish.
    Stalled,
}

/// A direction.
#[derive(Clone, Copy, PartialEq, Eq, Structural, Debug)]
pub enum Op {
    /// Plain to cipher.
    Encrypt,
    /// Cipher to plain, with the key that encrypted.
    Decrypt,
}

impl Op {
    /// The direction field of the control register.
    pub open spec fn field(self) -> u16 {
        match self {
            Op::Encrypt => 0,
            Op::Decrypt => 1,
        }
    }
}

/// The words that hold `bytes`: the even byte is the low one.
pub open spec fn words(bytes: Seq<u8>) -> Seq<u16> {
    Seq::new(bytes.len() / 2, |i: int| (bytes[2 * i] + 256 * bytes[2 * i + 1]) as u16)
}

/// Each word written to `addr`.
pub open spec fn writes(addr: u32, values: Seq<u16>) -> Seq<Step> {
    values.map_values(|value: u16| Step::Write16 { addr, value })
}

/// Each word read from `addr`.
pub open spec fn reads(addr: u32, values: Seq<u16>) -> Seq<Step> {
    values.map_values(|value: u16| Step::Read16 { addr, value })
}

/// The wait for the engine.
pub open spec fn idle_wait(patience: u64, met: bool) -> Step {
    Step::Poll16 { addr: AESASTAT, until: Cond::none_set(AESBUSY), budget: patience, met }
}

/// The key loaded for a direction; `seen` says whether the engine took it.
pub open spec fn load_script(key: Key, op: Op, patience: u64, seen: bool) -> Seq<Step> {
    seq![
        idle_wait(patience, true),
        Step::Write16 { addr: AESACTL0, value: (op.field() + key.length_field()) as u16 },
    ] + writes(AESAKEY, words(key@)) + seq![
        Step::Poll16 {
            addr: AESASTAT,
            until: Cond::all_set(AESKEYWR),
            budget: patience,
            met: seen,
        },
    ]
}

/// A block written to the engine.
pub open spec fn feed_script(input: Seq<u8>, patience: u64, met: bool) -> Seq<Step> {
    writes(AESADIN, words(input)).push(idle_wait(patience, met))
}

/// One block through the engine.
pub open spec fn block_script(input: Seq<u8>, output: Seq<u8>, patience: u64) -> Seq<Step> {
    feed_script(input, patience, true) + reads(AESADOUT, words(output))
}

/// Block number `i` of `data`.
pub open spec fn block(data: Seq<u8>, i: int) -> Seq<u8> {
    data.subrange(16 * i, 16 * i + 16)
}

/// Two blocks combined bit by bit.
pub open spec fn xored(a: Seq<u8>, b: Seq<u8>) -> Seq<u8> {
    Seq::new(16, |k: int| a[k] ^ b[k])
}

/// What the block after those that gave `outs` is combined with: nothing
/// without chaining, else the initialization vector for the first block and
/// the cipher block before it for the others.
pub open spec fn chain(
    op: Op,
    iv: Option<Seq<u8>>,
    before: Seq<u8>,
    outs: Seq<Seq<u8>>,
) -> Option<Seq<u8>> {
    match iv {
        None => None,
        Some(v) => if outs.len() == 0 {
            Some(v)
        } else {
            match op {
                Op::Encrypt => Some(outs.last()),
                Op::Decrypt => Some(block(before, outs.len() - 1)),
            }
        },
    }
}

/// `data` combined with the chain, where there is one.
pub open spec fn mixed(data: Seq<u8>, with: Option<Seq<u8>>) -> Seq<u8> {
    match with {
        None => data,
        Some(c) => xored(data, c),
    }
}

/// What goes into the engine after the blocks that gave `outs`.
pub open spec fn fed(
    op: Op,
    iv: Option<Seq<u8>>,
    before: Seq<u8>,
    outs: Seq<Seq<u8>>,
) -> Seq<u8> {
    match op {
        Op::Encrypt => mixed(block(before, outs.len() as int), chain(op, iv, before, outs)),
        Op::Decrypt => block(before, outs.len() as int),
    }
}

/// What replaces the block after those that gave `outs`, where the engine
/// answered `out`.
pub open spec fn replacement(
    op: Op,
    iv: Option<Seq<u8>>,
    before: Seq<u8>,
    outs: Seq<Seq<u8>>,
    out: Seq<u8>,
) -> Seq<u8> {
    match op {
        Op::Encrypt => out,
        Op::Decrypt => mixed(out, chain(op, iv, before, outs)),
    }
}

/// The first blocks of `before` were replaced, by what follows from the
/// engine's answers `outs`; the others are as they were.
pub open spec fn transformed(
    op: Op,
    iv: Option<Seq<u8>>,
    before: Seq<u8>,
    after: Seq<u8>,
    outs: Seq<Seq<u8>>,
) -> bool {
    &&& after.len() == before.len()
    &&& 16 * outs.len() <= before.len()
    &&& forall|i: int|
        0 <= i < outs.len() ==> {
            &&& (#[trigger] outs[i]).len() == 16
            &&& block(after, i) == replacement(op, iv, before, outs.take(i), outs[i])
        }
    &&& forall|k: int| 16 * outs.len() <= k < before.len() ==> #[trigger] after[k] == before[k]
}

/// The blocks that gave `outs`, through the engine one after the other.
pub open spec fn blocks_script(
    op: Op,
    iv: Option<Seq<u8>>,
    before: Seq<u8>,
    outs: Seq<Seq<u8>>,
    patience: u64,
) -> Seq<Step>
    decreases outs.len(),
{
    if outs.len() == 0 {
        Seq::empty()
    } else {
        blocks_script(op, iv, before, outs.drop_last(), patience) + block_script(
            fed(op, iv, before, outs.drop_last()),
            outs.last(),
            patience,
        )
    }
}

/// Where the engine stopped answering.
pub enum StallAt {
    /// Before the key was loaded.
    Start,
    /// After the key was written.
    KeyCheck,
    /// After a block was written.
    Block,
}

/// The key loaded, unless it is loaded for this direction already.
pub open spec fn key_script(key: Key, loaded: Option<Op>, op: Op, patience: u64) -> Seq<Step> {
    if loaded == Some(op) {
        Seq::empty()
    } else {
        load_script(key, op, patience, true)
    }
}

/// The steps of an operation. An operation on no block does nothing.
pub open spec fn run_script(
    key: Key,
    loaded: Option<Op>,
    op: Op,
    iv: Option<Seq<u8>>,
    before: Seq<u8>,
    outs: Seq<Seq<u8>>,
    stall: Option<StallAt>,
    patience: u64,
) -> Seq<Step> {
    match stall {
        None => if outs.len() == 0 {
            Seq::empty()
        } else {
            key_script(key, loaded, op, patience) + blocks_script(op, iv, before, outs, patience)
        },
        Some(StallAt::Start) => seq![idle_wait(patience, false)],
        Some(StallAt::KeyCheck) => load_script(key, op, patience, false),
        Some(StallAt::Block) => key_script(key, loaded, op, patience) + blocks_script(
            op,
            iv,
            before,
            outs,
            patience,
        ) + feed_script(fed(op, iv, before, outs), patience, false),
    }
}

/// The operation got as far as `outs` and `stall` say, and that is its result.
pub open spec fn run_outcome(
    loaded: Option<Op>,
    op: Op,
    before: Seq<u8>,
    outs: Seq<Seq<u8>>,
    stall: Option<StallAt>,
    r: Result<(), Error>,
) -> bool {
    if before.len() % 16 != 0 {
        &&& outs.len() == 0
        &&& stall is None
        &&& r == Err::<(), Error>(Error::NotBlockAligned)
    } else {
        match stall {
            None => 16 * outs.len() == before.len() && r is Ok,
            Some(StallAt::Block) => {
                &&& 16 * outs.len() < before.len()
                &&& r == Err::<(), Error>(Error::Stalled)
            },
            Some(_) => {
                &&& outs.len() == 0 < before.len()
                &&& loaded != Some(op)
                &&& r == Err::<(), Error>(Error::Stalled)
            },
        }
    }
}

/// The accelerator.
pub struct Aes {
    aes: AesAccelerator,
    key: Key,
    loaded: Option<Op>,
}

impl Aes {
    /// The key.
    pub closed spec fn secret(&self) -> Key {
        self.key
    }

    /// The direction for which the engine holds the key.
    pub closed spec fn direction(&self) -> Option<Op> {
        self.loaded
    }

    /// The peripheral.
    pub closed spec fn owned(self) -> AesAccelerator {
        self.aes
    }

    /// Resets the module, so that nothing of an earlier use is left, and takes
    /// the key.
    pub fn new<H: Hardware>(aes: AesAccelerator, bus: &mut Bus<H>, key: Key) -> (r: Self)
        ensures
            r.secret() == key,
            r.direction() is None,
            r.owned() == aes,
            final(bus).ran(*old(bus), seq![Step::Write16 { addr: AESACTL0, value: AESSWRST }]),
    {
        let mut this = Aes { aes, key, loaded: None };
        this.reset(bus);
        this
    }

    /// Changes the key. The next operation loads it.
    pub fn set_key(&mut self, key: Key)
        ensures
            final(self).secret() == key,
            final(self).direction() is None,
            final(self).owned() == old(self).owned(),
    {
        self.key = key;
        self.loaded = None;
    }

    /// Resets the module, which drops the key from it, and gives the
    /// peripheral back.
    pub fn free<H: Hardware>(self, bus: &mut Bus<H>) -> (r: AesAccelerator)
        ensures
            r == self.owned(),
            final(bus).ran(*old(bus), seq![Step::Write16 { addr: AESACTL0, value: AESSWRST }]),
    {
        let mut this = self;
        this.reset(bus);
        this.aes
    }

    /// Encrypts each block in place, by itself.
    pub fn encrypt_blocks<H: Hardware>(&mut self, bus: &mut Bus<H>, data: &mut [u8]) -> (r: Result<
        (),
        Error,
    >)
        ensures
            operated(
                Op::Encrypt,
                None,
                *old(self),
                *final(self),
                old(data)@,
                final(data)@,
                r,
                *old(bus),
                *final(bus),
            ),
    {
        self.run(bus, Op::Encrypt, None, data)
    }

    /// Decrypts each block in place, by itself.
    pub fn decrypt_blocks<H: Hardware>(&mut self, bus: &mut Bus<H>, data: &mut [u8]) -> (r: Result<
        (),
        Error,
    >)
        ensures
            operated(
                Op::Decrypt,
                None,
                *old(self),
                *final(self),
                old(data)@,
                final(data)@,
                r,
                *old(bus),
                *final(bus),
            ),
    {
        self.run(bus, Op::Decrypt, None, data)
    }

    /// Encrypts in place, each block chained to the one before it.
    pub fn encrypt_cbc<H: Hardware>(
        &mut self,
        bus: &mut Bus<H>,
        iv: &[u8; 16],
        data: &mut [u8],
    ) -> (r: Result<(), Error>)
        ensures
            operated(
                Op::Encrypt,
                Some(iv@),
                *old(self),
                *final(self),
                old(data)@,
                final(data)@,
                r,
                *old(bus),
                *final(bus),
            ),
    {
        self.run(bus, Op::Encrypt, Some(*iv), data)
    }

    /// Decrypts in place what was chained so.
    pub fn decrypt_cbc<H: Hardware>(
        &mut self,
        bus: &mut Bus<H>,
        iv: &[u8; 16],
        data: &mut [u8],
    ) -> (r: Result<(), Error>)
        ensures
            operated(
                Op::Decrypt,
                Some(iv@),
                *old(self),
                *final(self),
                old(data)@,
                final(data)@,
                r,
                *old(bus),
                *final(bus),
            ),
    {
        self.run(bus, Op::Decrypt, Some(*iv), data)
    }

    /// Runs all blocks of `data` through the engine.
    fn run<H: Hardware>(
        &mut self,
        bus: &mut Bus<H>,
        op: Op,
        iv: Option<[u8; 16]>,
        data: &mut [u8],
    ) -> (r: Result<(), Error>)
        ensures
            operated(
                op,
                vector(iv),
                *old(self),
                *final(self),
                old(data)@,
                final(data)@,
                r,
                *old(bus),
                *final(bus),
            ),
    {
        let ghost key = self.secret();
        let ghost loaded = self.direction();
        let ghost before = data@;
        let ghost v = vector(iv);
        let ghost p = bus.patience();
        let ghost mut outs: Seq<Seq<u8>> = Seq::empty();
        let len: usize = data.len();
        if len % BLOCK_SIZE != 0 {
            assert(bus.ran(*old(bus), run_script(key, loaded, op, v, before, outs, None, p)));
            return Err(Error::NotBlockAligned);
        }
        if len == 0 {
            assert(bus.ran(*old(bus), run_script(key, loaded, op, v, before, outs, None, p)));
            return Ok(());
        }
        match self.ensure_key(bus, op) {
            Ok(()) => {},
            Err(Some(())) => {
                assert(bus.ran(
                    *old(bus),
                    run_script(key, loaded, op, v, before, outs, Some(StallAt::KeyCheck), p),
                ));
                return Err(Error::Stalled);
            },
            Err(None) => {
                assert(bus.ran(
                    *old(bus),
                    run_script(key, loaded, op, v, before, outs, Some(StallAt::Start), p),
                ));
                return Err(Error::Stalled);
            },
        }
        let mut link: Option<[u8; 16]> = iv;
        let mut at: usize = 0;
        let ghost head = key_script(key, loaded, op, p);
        assert(head + blocks_script(op, v, before, outs, p) =~= head);
        while at < len
            invariant
                len == before.len(),
                len % 16 == 0,
                at <= len,
                at == 16 * outs.len(),
                data@.len() == len,
                key == old(self).secret(),
                loaded == old(self).direction(),
                before == old(data)@,
                v == vector(iv),
                p == old(bus).patience(),
                head == key_script(key, loaded, op, p),
                self.secret() == key,
                self.owned() == old(self).owned(),
                self.direction() == Some(op),
                vector(link) == chain(op, v, before, outs),
                transformed(op, v, before, data@, outs),
                bus.ran(*old(bus), head + blocks_script(op, v, before, outs, p)),
            decreases len - at,
        {
            let ghost data0 = data@;
            let ghost outs0 = outs;
            let here: [u8; 16] = copy_block(data, at);
            assert(here@ =~= block(before, outs.len() as int));
            let input: [u8; 16] = match op {
                Op::Encrypt => mix(&here, &link),
                Op::Decrypt => here,
            };
            assert(input@ == fed(op, v, before, outs));
            let answer = self.process_block(bus, &input);
            let out: [u8; 16] = match answer {
                Ok(o) => o,
                Err(_) => {
                    assert(bus.ran(
                        *old(bus),
                        run_script(key, loaded, op, v, before, outs, Some(StallAt::Block), p),
                    ));
                    return Err(Error::Stalled);
                },
            };
            let put: [u8; 16] = match op {
                Op::Encrypt => out,
                Op::Decrypt => mix(&out, &link),
            };
            paste_block(data, at, &put);
            proof {
                outs = outs.push(out@);
                assert(outs.drop_last() =~= outs0);
                assert(transformed(op, v, before, data@, outs)) by {
                    assert forall|i: int| 0 <= i < outs.len() implies (#[trigger] outs[i]).len()
                        == 16 && block(data@, i) == replacement(
                        op,
                        v,
                        before,
                        outs.take(i),
                        outs[i],
                    ) by {
                        if i < outs0.len() {
                            assert(outs[i] == outs0[i]);
                            assert(outs.take(i) =~= outs0.take(i));
                            assert(block(data@, i) =~= block(data0, i));
                        } else {
                            assert(outs.take(i) =~= outs0);
                            assert(block(data@, i) =~= put@);
                        }
                    }
                }
                assert(head + blocks_script(op, v, before, outs, p) =~= (head + blocks_script(
                    op,
                    v,
                    before,
                    outs0,
                    p,
                )) + block_script(input@, out@, p));
            }
            if iv.is_some() {
                link = Some(
                    match op {
                        Op::Encrypt => out,
                        Op::Decrypt => here,
                    },
                );
            }
            at = at + BLOCK_SIZE;
        }
        assert(bus.ran(*old(bus), run_script(key, loaded, op, v, before, outs, None, p)));
        Ok(())
    }

    /// Sees to it that the engine holds the key for `op`. Fails with nothing
    /// where it was busy, with something where it did not take the key.
    fn ensure_key<H: Hardware>(&mut self, bus: &mut Bus<H>, op: Op) -> (r: Result<(), Option<()>>)
        ensures
            final(self).secret() == old(self).secret(),
            final(self).owned() == old(self).owned(),
            r is Ok ==> final(self).direction() == Some(op),
            r is Err ==> final(self).direction() is None && old(self).direction() != Some(op),
            final(bus).ran(
                *old(bus),
                match r {
                    Ok(_) => key_script(
                        old(self).secret(),
                        old(self).direction(),
                        op,
                        old(bus).patience(),
                    ),
                    Err(None) => seq![idle_wait(old(bus).patience(), false)],
                    Err(Some(_)) => load_script(old(self).secret(), op, old(bus).patience(), false),
                },
            ),
    {
        let already: bool = match self.loaded {
            Some(held) => held == op,
            None => false,
        };
        if already {
            return Ok(());
        }
        self.loaded = None;
        if !bus.poll16(AESASTAT, Cond::Bits { mask: AESBUSY, want: 0 }) {
            return Err(None);
        }
        let direction: u16 = match op {
            Op::Encrypt => 0,
            Op::Decrypt => 1,
        };
        bus.write16(AESACTL0, direction + self.key.length_bits());
        send(bus, AESAKEY, self.key.bytes());
        if !bus.poll16(AESASTAT, Cond::Bits { mask: AESKEYWR, want: AESKEYWR }) {
            return Err(Some(()));
        }
        self.loaded = Some(op);
        Ok(())
    }

    /// One block through the engine, which holds the key. After a stall the
    /// key counts as lost.
    fn process_block<H: Hardware>(&mut self, bus: &mut Bus<H>, input: &[u8; 16]) -> (r: Result<
        [u8; 16],
        Stalled,
    >)
        ensures
            final(self).secret() == old(self).secret(),
            final(self).owned() == old(self).owned(),
            final(self).direction() == if r is Ok {
                old(self).direction()
            } else {
                None
            },
            final(bus).ran(
                *old(bus),
                match r {
                    Ok(out) => block_script(input@, out@, old(bus).patience()),
                    Err(_) => feed_script(input@, old(bus).patience(), false),
                },
            ),
    {
        send(bus, AESADIN, input.as_slice());
        if !bus.poll16(AESASTAT, Cond::Bits { mask: AESBUSY, want: 0 }) {
            self.loaded = None;
            return Err(Stalled);
        }
        let out: [u8; 16] = receive(bus);
        Ok(out)
    }

    fn reset<H: Hardware>(&mut self, bus: &mut Bus<H>)
        ensures
            final(self).secret() == old(self).secret(),
            final(self).owned() == old(self).owned(),
            final(self).direction() is None,
            final(bus).ran(*old(bus), seq![Step::Write16 { addr: AESACTL0, value: AESSWRST }]),
    {
        bus.write16(AESACTL0, AESSWRST);
        self.loaded = None;
    }
}

/// What an operation does to the data, the accelerator and the bus: as many
/// blocks as the engine answered, with the key loaded first where it has to be.
pub open spec fn operated<H: Hardware>(
    op: Op,
    iv: Option<Seq<u8>>,
    before: Aes,
    after: Aes,
    data: Seq<u8>,
    result: Seq<u8>,
    r: Result<(), Error>,
    pre: Bus<H>,
    post: Bus<H>,
) -> bool {
    &&& after.secret() == before.secret()
    &&& after.owned() == before.owned()
    &&& exists|outs: Seq<Seq<u8>>, stall: Option<StallAt>|
        {
            &&& run_outcome(before.direction(), op, data, outs, stall, r)
            &&& transformed(op, iv, data, result, outs)
            &&& after.direction() == direction_after(before.direction(), op, outs, stall)
            &&& post.ran(
                pre,
                #[trigger] run_script(
                    before.secret(),
                    before.direction(),
                    op,
                    iv,
                    data,
                    outs,
                    stall,
                    pre.patience(),
                ),
            )
        }
}

/// The direction that the engine holds the key for after an operation.
pub open spec fn direction_after(
    loaded: Option<Op>,
    op: Op,
    outs: Seq<Seq<u8>>,
    stall: Option<StallAt>,
) -> Option<Op> {
    if stall is Some {
        None
    } else if outs.len() == 0 {
        loaded
    } else {
        Some(op)
    }
}

/// The bytes of an initialization vector, where there is one.
pub open spec fn vector(iv: Option<[u8; 16]>) -> Option<Seq<u8>> {
    match iv {
        None => None,
        Some(v) => Some(v@),
    }
}

/// Writes `bytes` to `addr`, two at a time.
fn send<H: Hardware>(bus: &mut Bus<H>, addr: u32, bytes: &[u8])
    requires
        bytes@.len() % 2 == 0,
    ensures
        final(bus).ran(*old(bus), writes(addr, words(bytes@))),
{
    let mut i: usize = 0;
    assert(writes(addr, words(bytes@.take(0))) =~= Seq::empty());
    while i < bytes.len()
        invariant
            i <= bytes@.len(),
            i % 2 == 0,
            bytes@.len() % 2 == 0,
            bus.ran(*old(bus), writes(addr, words(bytes@.take(i as int)))),
        decreases bytes@.len() - i,
    {
        bus.write16(addr, bytes[i] as u16 + 256 * (bytes[i + 1] as u16));
        proof {
            let step = Step::Write16 {
                addr,
                value: (bytes@[i as int] + 256 * bytes@[i + 1]) as u16,
            };
            assert(writes(addr, words(bytes@.take(i + 2))) =~= writes(
                addr,
                words(bytes@.take(i as int)),
            ).push(step));
        }
        i = i + 2;
    }
    assert(bytes@.take(i as int) =~= bytes@);
}

/// Reads a block from the engine.
fn receive<H: Hardware>(bus: &mut Bus<H>) -> (r: [u8; 16])
    ensures
        final(bus).ran(*old(bus), reads(AESADOUT, words(r@))),
{
    let mut r: [u8; 16] = [0u8, 0, 0, 0, 0, 0, 0, 0, 0, 0, 0, 0, 0, 0, 0, 0];
    let mut i: usize = 0;
    assert(reads(AESADOUT, words(r@.take(0))) =~= Seq::empty());
    while i < 16
        invariant
            i <= 16,
            i % 2 == 0,
            bus.ran(*old(bus), reads(AESADOUT, words(r@.take(i as int)))),
        decreases 16 - i,
    {
        let ghost r0 = r@;
        let word: u16 = bus.read16(AESADOUT);
        r[i] = (word % 256) as u8;
        r[i + 1] = (word / 256) as u8;
        proof {
            assert(r@.take(i + 2).take(i as int) =~= r0.take(i as int));
            assert((r@[i as int] + 256 * r@[i + 1]) == word);
            assert(reads(AESADOUT, words(r@.take(i + 2))) =~= reads(
                AESADOUT,
                words(r0.take(i as int)),
            ).push(Step::Read16 { addr: AESADOUT, value: word }));
        }
        i = i + 2;
    }
    assert(r@.take(i as int) =~= r@);
    r
}

/// The block of `data` that starts at `at`.
fn copy_block(data: &[u8], at: usize) -> (r: [u8; 16])
    requires
        at + 16 <= data.len(),
    ensures
        r@ == data@.subrange(at as int, at + 16),
{
    let mut r: [u8; 16] = [0u8, 0, 0, 0, 0, 0, 0, 0, 0, 0, 0, 0, 0, 0, 0, 0];
    let mut i: usize = 0;
    while i < 16
        invariant
            i <= 16,
            at + 16 <= data.len(),
            forall|k: int| 0 <= k < i ==> r@[k] == data@[at + k],
        decreases 16 - i,
    {
        r[i] = data[at + i];
        i = i + 1;
    }
    assert(r@ =~= data@.subrange(at as int, at + 16));
    r
}

/// Replaces the block of `data` that starts at `at`.
fn paste_block(data: &mut [u8], at: usize, put: &[u8; 16])
    requires
        at + 16 <= old(data).len(),
    ensures
        final(data)@.len() == old(data)@.len(),
        forall|k: int|
            0 <= k < old(data)@.len() ==> #[trigger] final(data)@[k] == if at <= k < at + 16 {
                put@[k - at]
            } else {
                old(data)@[k]
            },
{
    let mut i: usize = 0;
    while i < 16
        invariant
            i <= 16,
            at + 16 <= data.len(),
            data@.len() == old(data)@.len(),
            forall|k: int|
                0 <= k < old(data)@.len() ==> #[trigger] data@[k] == if at <= k < at + i {
                    put@[k - at]
                } else {
                    old(data)@[k]
                },
        decreases 16 - i,
    {
        data[at + i] = put[i];
        i = i + 1;
    }
}

/// Combines a block with the chain.
fn mix(data: &[u8; 16], with: &Option<[u8; 16]>) -> (r: [u8; 16])
    ensures
        r@ == mixed(data@, vector(*with)),
{
    let mut r: [u8; 16] = *data;
    match with {
        None => {},
        Some(c) => {
            let mut i: usize = 0;
            while i < 16
                invariant
                    i <= 16,
                    forall|k: int|
                        0 <= k < 16 ==> #[trigger] r@[k] == if k < i {
                            data@[k] ^ c@[k]
                        } else {
                            data@[k]
                        },
                decreases 16 - i,
            {
                r[i] = data[i] ^ c[i];
                i = i + 1;
            }
            assert(r@ =~= xored(data@, c@));
        },
    }
    r
}

/// Combining twice with the same block gives the first one back.
proof fn lemma_xored_twice(a: Seq<u8>, b: Seq<u8>)
    requires
        a.len() == 16,
    ensures
        xored(xored(a, b), b) == a,
{
    assert forall|k: int| 0 <= k < 16 implies xored(xored(a, b), b)[k] == a[k] by {
        let x = a[k];
        let y = b[k];
        assert((x ^ y) ^ y == x) by (bit_vector);
    }
    assert(xored(xored(a, b), b) =~= a);
}

/// Whatever the block cipher, decryption undoes encryption, chained or not: if
/// the engine answered `enc` of what it was fed one way and `dec` the other
/// way, and `dec` undoes `enc` on blocks, the plain text comes back.
pub proof fn lemma_round_trip(
    iv: Option<Seq<u8>>,
    plain: Seq<u8>,
    cipher: Seq<u8>,
    back: Seq<u8>,
    coded: Seq<Seq<u8>>,
    decoded: Seq<Seq<u8>>,
    enc: spec_fn(Seq<u8>) -> Seq<u8>,
    dec: spec_fn(Seq<u8>) -> Seq<u8>,
)
    requires
        16 * coded.len() == plain.len(),
        16 * decoded.len() == plain.len(),
        transformed(Op::Encrypt, iv, plain, cipher, coded),
        transformed(Op::Decrypt, iv, cipher, back, decoded),
        forall|i: int|
            0 <= i < coded.len() ==> #[trigger] coded[i] == enc(
                fed(Op::Encrypt, iv, plain, coded.take(i)),
            ),
        forall|i: int|
            0 <= i < decoded.len() ==> #[trigger] decoded[i] == dec(
                fed(Op::Decrypt, iv, cipher, decoded.take(i)),
            ),
        forall|x: Seq<u8>| x.len() == 16 ==> dec(#[trigger] enc(x)) == x,
    ensures
        back == plain,
{
    assert forall|i: int| 0 <= i < coded.len() implies #[trigger] block(back, i) == block(
        plain,
        i,
    ) by {
        let done = coded.take(i);
        let undone = decoded.take(i);
        assert(coded[i].len() == 16 && decoded[i].len() == 16);
        assert(block(cipher, i) == coded[i]);
        if i > 0 {
            assert(done.last() == coded[i - 1]);
            assert(block(cipher, i - 1) == coded[i - 1]);
        }
        let link = chain(Op::Encrypt, iv, plain, done);
        assert(link == chain(Op::Decrypt, iv, cipher, undone));
        assert(decoded[i] == fed(Op::Encrypt, iv, plain, done));
        if let Some(c) = link {
            lemma_xored_twice(block(plain, i), c);
        }
    }
    assert forall|k: int| 0 <= k < plain.len() implies back[k] == plain[k] by {
        let i = k / 16;
        assert(block(back, i)[k % 16] == block(plain, i)[k % 16]);
    }
    assert(back =~= plain);
}

/// What the engine holds: the control word, the key words written since then,
/// the words of a block that is not complete yet, and the words of the result
/// that were not read yet.
#[verifier::ext_equal]
pub struct Engine {
    pub control: u16,
    pub key: Seq<u16>,
    pub input: Seq<u16>,
    pub output: Seq<u16>,
}

/// A block cipher, by control word and key.
pub type Cipher = spec_fn(u16, Seq<u16>, Seq<u16>) -> Seq<u16>;

/// The engine after a step. Writing the control word drops all else; the
/// eighth word of a block starts the cipher.
pub open spec fn engine_next(e: Engine, step: Step, cipher: Cipher) -> Engine {
    match step {
        Step::Write16 { addr, value } => if addr == AESACTL0 {
            Engine {
                control: value,
                key: Seq::empty(),
                input: Seq::empty(),
                output: Seq::empty(),
            }
        } else if addr == AESAKEY {
            Engine { key: e.key.push(value), ..e }
        } else if addr == AESADIN {
            if e.input.len() == 7 {
                Engine {
                    input: Seq::empty(),
                    output: cipher(e.control, e.key, e.input.push(value)),
                    ..e
                }
            } else {
                Engine { input: e.input.push(value), ..e }
            }
        } else {
            e
        },
        Step::Read16 { addr, .. } => if addr == AESADOUT {
            Engine { output: e.output.skip(1), ..e }
        } else {
            e
        },
        _ => e,
    }
}

/// The engine answers a step as it should: every wait for it ends well, and a
/// result word is the next of the result.
pub open spec fn engine_answers(e: Engine, step: Step) -> bool {
    match step {
        Step::Poll16 { met, .. } => met,
        Step::Read16 { addr, value } => addr == AESADOUT && e.output.len() > 0 ==> value
            == e.output[0],
        _ => true,
    }
}

/// The engine after some steps.
pub open spec fn engine_after(e: Engine, steps: Seq<Step>, cipher: Cipher) -> Engine
    decreases steps.len(),
{
    if steps.len() == 0 {
        e
    } else {
        engine_next(engine_after(e, steps.drop_last(), cipher), steps.last(), cipher)
    }
}

/// The engine answers all of some steps as it should.
pub open spec fn engine_works(e: Engine, steps: Seq<Step>, cipher: Cipher) -> bool
    decreases steps.len(),
{
    steps.len() > 0 ==> {
        &&& engine_works(e, steps.drop_last(), cipher)
        &&& engine_answers(engine_after(e, steps.drop_last(), cipher), steps.last())
    }
}

/// The control word for a key and a direction.
pub open spec fn control_word(key: Key, op: Op) -> u16 {
    (op.field() + key.length_field()) as u16
}

/// The engine is ready for a block, with the key for a direction.
pub open spec fn holds_key(e: Engine, key: Key, op: Op) -> bool {
    &&& e.control == control_word(key, op)
    &&& e.key == words(key@)
    &&& e.input.len() == 0
}

/// With this key the cipher turns blocks into blocks, and decryption undoes
/// encryption.
pub open spec fn is_cipher(cipher: Cipher, key: Key) -> bool {
    let enc = control_word(key, Op::Encrypt);
    let dec = control_word(key, Op::Decrypt);
    &&& forall|x: Seq<u16>|
        x.len() == 8 ==> #[trigger] cipher(enc, words(key@), x).len() == 8 && cipher(
            dec,
            words(key@),
            cipher(enc, words(key@), x),
        ) == x
    &&& forall|x: Seq<u16>| x.len() == 8 ==> #[trigger] cipher(dec, words(key@), x).len() == 8
}

/// The bytes that `words` hold.
pub open spec fn unpacked(values: Seq<u16>) -> Seq<u8> {
    Seq::new(
        2 * values.len(),
        |k: int|
            if k % 2 == 0 {
                (values[k / 2] % 256) as u8
            } else {
                (values[k / 2] / 256) as u8
            },
    )
}

/// Words and bytes stand for each other.
proof fn lemma_unpacked(bytes: Seq<u8>, values: Seq<u16>)
    requires
        bytes.len() % 2 == 0,
    ensures
        unpacked(words(bytes)) == bytes,
        words(unpacked(values)) == values,
{
    assert forall|k: int| 0 <= k < bytes.len() implies unpacked(words(bytes))[k] == bytes[k] by {
        let i = k / 2;
        assert(words(bytes)[i] == bytes[2 * i] + 256 * bytes[2 * i + 1]);
    }
    assert(unpacked(words(bytes)) =~= bytes);
    assert forall|i: int| 0 <= i < values.len() implies words(unpacked(values))[i] == values[i] by {
        assert((2 * i) / 2 == i && (2 * i + 1) / 2 == i);
    }
    assert(words(unpacked(values)) =~= values);
}

/// Steps one after the other.
proof fn lemma_engine_join(e: Engine, a: Seq<Step>, b: Seq<Step>, cipher: Cipher)
    ensures
        engine_after(e, a + b, cipher) == engine_after(engine_after(e, a, cipher), b, cipher),
        engine_works(e, a + b, cipher) <==> engine_works(e, a, cipher) && engine_works(
            engine_after(e, a, cipher),
            b,
            cipher,
        ),
    decreases b.len(),
{
    if b.len() == 0 {
        assert(a + b =~= a);
    } else {
        assert((a + b).drop_last() =~= a + b.drop_last());
        lemma_engine_join(e, a, b.drop_last(), cipher);
    }
}

/// Writing key words appends them.
proof fn lemma_engine_takes_key(e: Engine, values: Seq<u16>, cipher: Cipher)
    ensures
        engine_after(e, writes(AESAKEY, values), cipher) == (Engine { key: e.key + values, ..e }),
    decreases values.len(),
{
    let steps = writes(AESAKEY, values);
    if values.len() == 0 {
        assert(e.key + values =~= e.key);
    } else {
        let front = values.drop_last();
        assert(steps.drop_last() =~= writes(AESAKEY, front));
        lemma_engine_takes_key(e, front, cipher);
        assert((e.key + front).push(values.last()) =~= e.key + values);
    }
}

/// Writing part of a block keeps it.
proof fn lemma_engine_takes_part(e: Engine, values: Seq<u16>, cipher: Cipher)
    requires
        e.input.len() == 0,
        values.len() < 8,
    ensures
        engine_after(e, writes(AESADIN, values), cipher) == (Engine { input: values, ..e }),
    decreases values.len(),
{
    let steps = writes(AESADIN, values);
    if values.len() == 0 {
        assert(values =~= e.input);
    } else {
        let front = values.drop_last();
        assert(steps.drop_last() =~= writes(AESADIN, front));
        lemma_engine_takes_part(e, front, cipher);
        assert(front.push(values.last()) =~= values);
    }
}

/// Writing a block starts the cipher on it.
proof fn lemma_engine_takes_block(e: Engine, values: Seq<u16>, cipher: Cipher)
    requires
        e.input.len() == 0,
        values.len() == 8,
    ensures
        engine_after(e, writes(AESADIN, values), cipher) == (Engine {
            output: cipher(e.control, e.key, values),
            ..e
        }),
{
    let steps = writes(AESADIN, values);
    let front = values.drop_last();
    assert(steps.drop_last() =~= writes(AESADIN, front));
    lemma_engine_takes_part(e, front, cipher);
    assert(front.push(values.last()) =~= values);
    assert(e.input =~= Seq::<u16>::empty());
}

/// What is read is the result, as far as it is read.
proof fn lemma_engine_gives(e: Engine, values: Seq<u16>, cipher: Cipher)
    requires
        values.len() <= e.output.len(),
        engine_works(e, reads(AESADOUT, values), cipher),
    ensures
        values == e.output.take(values.len() as int),
        engine_after(e, reads(AESADOUT, values), cipher) == (Engine {
            output: e.output.skip(values.len() as int),
            ..e
        }),
    decreases values.len(),
{
    let steps = reads(AESADOUT, values);
    if values.len() == 0 {
        assert(values =~= e.output.take(0));
        assert(e.output.skip(0) =~= e.output);
    } else {
        let front = values.drop_last();
        let n = front.len() as int;
        assert(steps.drop_last() =~= reads(AESADOUT, front));
        lemma_engine_gives(e, front, cipher);
        assert(e.output.skip(n).skip(1) =~= e.output.skip(n + 1));
        assert(e.output.skip(n)[0] == e.output[n]);
        assert forall|k: int| 0 <= k <= n implies values[k] == e.output[k] by {
            if k < n {
                assert(values[k] == front[k]);
                assert(front[k] == e.output.take(n)[k]);
            }
        }
        assert(values =~= e.output.take(n + 1));
    }
}

/// Loading the key makes the engine ready.
proof fn lemma_engine_loaded(e: Engine, key: Key, op: Op, patience: u64, cipher: Cipher)
    ensures
        holds_key(engine_after(e, load_script(key, op, patience, true), cipher), key, op),
{
    let head = seq![
        idle_wait(patience, true),
        Step::Write16 { addr: AESACTL0, value: control_word(key, op) },
    ];
    let keys = writes(AESAKEY, words(key@));
    let tail = seq![
        Step::Poll16 {
            addr: AESASTAT,
            until: Cond::all_set(AESKEYWR),
            budget: patience,
            met: true,
        },
    ];
    assert(load_script(key, op, patience, true) =~= head + keys + tail);
    lemma_engine_join(e, head + keys, tail, cipher);
    lemma_engine_join(e, head, keys, cipher);
    reveal_with_fuel(engine_after, 3);
    let begun = engine_after(e, head, cipher);
    assert(head.drop_last().last() == idle_wait(patience, true));
    assert(begun.key.len() == 0 && begun.input.len() == 0);
    lemma_engine_takes_key(begun, words(key@), cipher);
    assert(begun.key + words(key@) =~= words(key@));
    let full = engine_after(begun, keys, cipher);
    assert(tail.drop_last() =~= Seq::empty());
    assert(engine_after(full, tail, cipher) == full);
}

/// A block through an engine that holds the key is the cipher of that block,
/// and the engine is ready for the next.
proof fn lemma_engine_block(
    e: Engine,
    key: Key,
    op: Op,
    input: Seq<u8>,
    output: Seq<u8>,
    patience: u64,
    cipher: Cipher,
)
    requires
        is_cipher(cipher, key),
        holds_key(e, key, op),
        input.len() == 16,
        output.len() == 16,
        engine_works(e, block_script(input, output, patience), cipher),
    ensures
        words(output) == cipher(control_word(key, op), words(key@), words(input)),
        holds_key(engine_after(e, block_script(input, output, patience), cipher), key, op),
{
    let ins = writes(AESADIN, words(input));
    let wait = seq![idle_wait(patience, true)];
    let outs = reads(AESADOUT, words(output));
    assert(block_script(input, output, patience) =~= ins + wait + outs);
    lemma_engine_join(e, ins + wait, outs, cipher);
    lemma_engine_join(e, ins, wait, cipher);
    lemma_engine_takes_block(e, words(input), cipher);
    let busy = engine_after(e, ins, cipher);
    assert(wait.drop_last() =~= Seq::empty());
    reveal_with_fuel(engine_after, 2);
    assert(engine_after(busy, wait, cipher) == busy);
    let out = cipher(e.control, e.key, words(input));
    assert(words(input).len() == 8);
    assert(out.len() == 8) by {
        match op {
            Op::Encrypt => {},
            Op::Decrypt => {},
        }
    }
    lemma_engine_gives(busy, words(output), cipher);
    assert(out.take(8) =~= out);
}

/// The same of blocks one after the other.
proof fn lemma_engine_blocks(
    e: Engine,
    key: Key,
    op: Op,
    iv: Option<Seq<u8>>,
    before: Seq<u8>,
    outs: Seq<Seq<u8>>,
    patience: u64,
    cipher: Cipher,
)
    requires
        is_cipher(cipher, key),
        holds_key(e, key, op),
        16 * outs.len() <= before.len(),
        forall|i: int| 0 <= i < outs.len() ==> (#[trigger] outs[i]).len() == 16,
        engine_works(e, blocks_script(op, iv, before, outs, patience), cipher),
    ensures
        holds_key(
            engine_after(e, blocks_script(op, iv, before, outs, patience), cipher),
            key,
            op,
        ),
        forall|i: int|
            0 <= i < outs.len() ==> words(#[trigger] outs[i]) == cipher(
                control_word(key, op),
                words(key@),
                words(fed(op, iv, before, outs.take(i))),
            ),
    decreases outs.len(),
{
    if outs.len() > 0 {
        let front = outs.drop_last();
        let n = front.len() as int;
        let head = blocks_script(op, iv, before, front, patience);
        let input = fed(op, iv, before, front);
        let tail = block_script(input, outs.last(), patience);
        lemma_engine_join(e, head, tail, cipher);
        assert forall|i: int| 0 <= i < front.len() implies (#[trigger] front[i]).len() == 16 by {
            assert(front[i] == outs[i]);
        }
        lemma_engine_blocks(e, key, op, iv, before, front, patience, cipher);
        assert(outs[n].len() == 16);
        assert(block(before, n).len() == 16);
        lemma_engine_block(
            engine_after(e, head, cipher),
            key,
            op,
            input,
            outs.last(),
            patience,
            cipher,
        );
        assert forall|i: int| 0 <= i < outs.len() implies words(#[trigger] outs[i]) == cipher(
            control_word(key, op),
            words(key@),
            words(fed(op, iv, before, outs.take(i))),
        ) by {
            if i < n {
                assert(front[i] == outs[i]);
                assert(front.take(i) =~= outs.take(i));
            } else {
                assert(outs.take(i) =~= front);
            }
        }
    }
}

/// An operation on an engine that works does not stall, answers the cipher of
/// what it was fed, and leaves the engine as the driver takes it to be.
proof fn lemma_engine_run(
    e: Engine,
    key: Key,
    loaded: Option<Op>,
    op: Op,
    iv: Option<Seq<u8>>,
    before: Seq<u8>,
    after: Seq<u8>,
    outs: Seq<Seq<u8>>,
    stall: Option<StallAt>,
    r: Result<(), Error>,
    patience: u64,
    cipher: Cipher,
)
    requires
        is_cipher(cipher, key),
        loaded matches Some(held) ==> holds_key(e, key, held),
        before.len() % 16 == 0,
        run_outcome(loaded, op, before, outs, stall, r),
        transformed(op, iv, before, after, outs),
        engine_works(
            e,
            run_script(key, loaded, op, iv, before, outs, stall, patience),
            cipher,
        ),
    ensures
        stall is None,
        r is Ok,
        16 * outs.len() == before.len(),
        direction_after(loaded, op, outs, stall) matches Some(held) ==> holds_key(
            engine_after(
                e,
                run_script(key, loaded, op, iv, before, outs, stall, patience),
                cipher,
            ),
            key,
            held,
        ),
        forall|i: int|
            0 <= i < outs.len() ==> words(#[trigger] outs[i]) == cipher(
                control_word(key, op),
                words(key@),
                words(fed(op, iv, before, outs.take(i))),
            ),
{
    let script = run_script(key, loaded, op, iv, before, outs, stall, patience);
    if stall is Some {
        assert(script.last() matches Step::Poll16 { met, .. } && !met);
        assert(false);
    }
    if outs.len() > 0 {
        let head = key_script(key, loaded, op, patience);
        let tail = blocks_script(op, iv, before, outs, patience);
        lemma_engine_join(e, head, tail, cipher);
        if loaded == Some(op) {
            assert(engine_after(e, head, cipher) == e);
        } else {
            lemma_engine_loaded(e, key, op, patience, cipher);
        }
        lemma_engine_blocks(
            engine_after(e, head, cipher),
            key,
            op,
            iv,
            before,
            outs,
            patience,
            cipher,
        );
    }
}

/// The law below, for given answers of the engine.
proof fn lemma_runs_undone(
    e: Engine,
    key: Key,
    loaded: Option<Op>,
    iv: Option<Seq<u8>>,
    plain: Seq<u8>,
    coded: Seq<u8>,
    back: Seq<u8>,
    outs1: Seq<Seq<u8>>,
    stall1: Option<StallAt>,
    r1: Result<(), Error>,
    outs2: Seq<Seq<u8>>,
    stall2: Option<StallAt>,
    r2: Result<(), Error>,
    patience: u64,
    cipher: Cipher,
)
    requires
        is_cipher(cipher, key),
        loaded matches Some(held) ==> holds_key(e, key, held),
        plain.len() % 16 == 0,
        run_outcome(loaded, Op::Encrypt, plain, outs1, stall1, r1),
        transformed(Op::Encrypt, iv, plain, coded, outs1),
        ({
            let between = direction_after(loaded, Op::Encrypt, outs1, stall1);
            &&& run_outcome(between, Op::Decrypt, coded, outs2, stall2, r2)
            &&& transformed(Op::Decrypt, iv, coded, back, outs2)
            &&& engine_works(
                e,
                run_script(key, loaded, Op::Encrypt, iv, plain, outs1, stall1, patience)
                    + run_script(key, between, Op::Decrypt, iv, coded, outs2, stall2, patience),
                cipher,
            )
        }),
    ensures
        r1 is Ok,
        r2 is Ok,
        back == plain,
{
    let between = direction_after(loaded, Op::Encrypt, outs1, stall1);
    let first = run_script(key, loaded, Op::Encrypt, iv, plain, outs1, stall1, patience);
    let second = run_script(key, between, Op::Decrypt, iv, coded, outs2, stall2, patience);
    lemma_engine_join(e, first, second, cipher);
    lemma_engine_run(
        e,
        key,
        loaded,
        Op::Encrypt,
        iv,
        plain,
        coded,
        outs1,
        stall1,
        r1,
        patience,
        cipher,
    );
    let e2 = engine_after(e, first, cipher);
    lemma_engine_run(
        e2,
        key,
        between,
        Op::Decrypt,
        iv,
        coded,
        back,
        outs2,
        stall2,
        r2,
        patience,
        cipher,
    );
    let wk = words(key@);
    let enc = |x: Seq<u8>| unpacked(cipher(control_word(key, Op::Encrypt), wk, words(x)));
    let dec = |x: Seq<u8>| unpacked(cipher(control_word(key, Op::Decrypt), wk, words(x)));
    assert forall|i: int| 0 <= i < outs1.len() implies #[trigger] outs1[i] == enc(
        fed(Op::Encrypt, iv, plain, outs1.take(i)),
    ) by {
        lemma_unpacked(outs1[i], Seq::empty());
    }
    assert forall|i: int| 0 <= i < outs2.len() implies #[trigger] outs2[i] == dec(
        fed(Op::Decrypt, iv, coded, outs2.take(i)),
    ) by {
        lemma_unpacked(outs2[i], Seq::empty());
    }
    assert forall|x: Seq<u8>| x.len() == 16 implies dec(#[trigger] enc(x)) == x by {
        let y = cipher(control_word(key, Op::Encrypt), wk, words(x));
        lemma_unpacked(x, y);
        assert(words(x).len() == 8);
        assert(words(enc(x)) == y);
    }
    lemma_round_trip(iv, plain, coded, back, outs1, outs2, enc, dec);
}

/// Decryption after encryption gives the data back, chained or not: on an
/// engine that works, with the same key and initialization vector, both
/// operations succeed on whole blocks and the plain text comes back, whatever
/// direction the key was loaded for before. The change of direction between
/// them loads the key again and disturbs nothing. The engine is as `e` says when
/// the bus is `pre`.
pub proof fn lemma_decryption_undoes_encryption<H: Hardware>(
    e: Engine,
    cipher: Cipher,
    iv: Option<Seq<u8>>,
    before: Aes,
    between: Aes,
    after: Aes,
    plain: Seq<u8>,
    coded: Seq<u8>,
    back: Seq<u8>,
    r1: Result<(), Error>,
    r2: Result<(), Error>,
    pre: Bus<H>,
    mid: Bus<H>,
    post: Bus<H>,
)
    requires
        is_cipher(cipher, before.secret()),
        before.direction() matches Some(held) ==> holds_key(e, before.secret(), held),
        plain.len() % 16 == 0,
        operated(Op::Encrypt, iv, before, between, plain, coded, r1, pre, mid),
        operated(Op::Decrypt, iv, between, after, coded, back, r2, mid, post),
        engine_works(e, post@.skip(pre@.len() as int), cipher),
    ensures
        r1 is Ok,
        r2 is Ok,
        back == plain,
{
    let key = before.secret();
    let loaded = before.direction();
    let patience = pre.patience();
    let (outs1, stall1) = choose|outs: Seq<Seq<u8>>, stall: Option<StallAt>|
        {
            &&& run_outcome(loaded, Op::Encrypt, plain, outs, stall, r1)
            &&& transformed(Op::Encrypt, iv, plain, coded, outs)
            &&& between.direction() == direction_after(loaded, Op::Encrypt, outs, stall)
            &&& mid.ran(
                pre,
                #[trigger] run_script(key, loaded, Op::Encrypt, iv, plain, outs, stall, patience),
            )
        };
    let held = between.direction();
    let (outs2, stall2) = choose|outs: Seq<Seq<u8>>, stall: Option<StallAt>|
        {
            &&& run_outcome(held, Op::Decrypt, coded, outs, stall, r2)
            &&& transformed(Op::Decrypt, iv, coded, back, outs)
            &&& after.direction() == direction_after(held, Op::Decrypt, outs, stall)
            &&& post.ran(
                mid,
                #[trigger] run_script(key, held, Op::Decrypt, iv, coded, outs, stall, patience),
            )
        };
    let first = run_script(key, loaded, Op::Encrypt, iv, plain, outs1, stall1, patience);
    let second = run_script(key, held, Op::Decrypt, iv, coded, outs2, stall2, patience);
    assert(post@.skip(pre@.len() as int) =~= first + second);
    lemma_runs_undone(
        e,
        key,
        loaded,
        iv,
        plain,
        coded,
        back,
        outs1,
        stall1,
        r1,
        outs2,
        stall2,
        r2,
        patience,
        cipher,
    );
}

/// When the direction changes, the first thing that an operation on any block
/// does is to load the key again; when it does not, no key word is written.
pub proof fn lemma_key_follows_direction(
    key: Key,
    loaded: Option<Op>,
    op: Op,
    iv: Option<Seq<u8>>,
    before: Seq<u8>,
    outs: Seq<Seq<u8>>,
    patience: u64,
)
    requires
        outs.len() > 0,
    ensures
        ({
            let script = run_script(key, loaded, op, iv, before, outs, None, patience);
            if loaded == Some(op) {
                forall|i: int|
                    0 <= i < script.len() ==> !(#[trigger] script[i] matches Step::Write16 {
                        addr: AESAKEY,
                        ..
                    })
            } else {
                load_script(key, op, patience, true).is_prefix_of(script)
            }
        }),
{
    let script = run_script(key, loaded, op, iv, before, outs, None, patience);
    let load = load_script(key, op, patience, true);
    if loaded == Some(op) {
        lemma_blocks_keep_key(op, iv, before, outs, patience);
        assert(script =~= blocks_script(op, iv, before, outs, patience));
    } else {
        assert(script.take(load.len() as int) =~= load);
        assert(load.is_prefix_of(script));
    }
}

proof fn lemma_blocks_keep_key(
    op: Op,
    iv: Option<Seq<u8>>,
    before: Seq<u8>,
    outs: Seq<Seq<u8>>,
    patience: u64,
)
    ensures
        ({
            let script = blocks_script(op, iv, before, outs, patience);
            forall|i: int|
                0 <= i < script.len() ==> !(#[trigger] script[i] matches Step::Write16 {
                    addr: AESAKEY,
                    ..
                })
        }),
    decreases outs.len(),
{
    if outs.len() > 0 {
        lemma_blocks_keep_key(op, iv, before, outs.drop_last(), patience);
    }
}

/// The key goes to the engine as the engine wants it: the control word asks for
/// the cipher of the key's own length (bits 3 and 2 hold how many times eight
/// bytes the key is longer than sixteen, so that the number of words written
/// next is 8 and 4 more for each) and for the direction (bits 1 and 0), with
/// nothing else set; then comes every byte of the key, two to a word, the first
/// in the low half. The engine is idle before and has taken the key after.
pub proof fn lemma_key_on_registers(key: Key, op: Op, patience: u64, k: int)
    requires
        0 <= k < key@.len(),
    ensures
        ({
            let script = load_script(key, op, patience, true);
            let n = key@.len() / 2;
            &&& key@.len() == 16 || key@.len() == 24 || key@.len() == 32
            &&& script.len() == n + 3
            &&& script[0] == (Step::Poll16 {
                addr: 0x09C4,
                until: Cond::Bits { mask: 0x0001, want: 0 },
                budget: patience,
                met: true,
            })
            &&& script[1] matches Step::Write16 { addr, value }
            &&& addr == 0x09C0
            &&& 8 + 4 * (value / 4) == n
            &&& value % 4 == if op == Op::Encrypt {
                0int
            } else {
                1
            }
            &&& script[2 + k / 2] matches Step::Write16 { addr: to, value: word }
            &&& to == 0x09C6
            &&& key@[k] == if k % 2 == 0 {
                word % 256
            } else {
                word / 256
            }
            &&& script.last() == (Step::Poll16 {
                addr: 0x09C4,
                until: Cond::Bits { mask: 0x0002, want: 0x0002 },
                budget: patience,
                met: true,
            })
        }),
{
    let script = load_script(key, op, patience, true);
    let i = k / 2;
    assert(script[2 + i] == writes(AESAKEY, words(key@))[i]);
    assert(words(key@)[i] == key@[2 * i] + 256 * key@[2 * i + 1]);
}

/// A block goes in and comes out byte for byte: eight words are written, the
/// engine is waited for, and eight words are read, each with the earlier byte in
/// its low half.
pub proof fn lemma_block_on_registers(input: Seq<u8>, output: Seq<u8>, patience: u64, k: int)
    requires
        input.len() == 16,
        output.len() == 16,
        0 <= k < 16,
    ensures
        ({
            let script = block_script(input, output, patience);
            &&& script.len() == 17
            &&& script[k / 2] matches Step::Write16 { addr, value }
            &&& addr == 0x09C8
            &&& input[k] == if k % 2 == 0 {
                value % 256
            } else {
                value / 256
            }
            &&& script[8] == (Step::Poll16 {
                addr: 0x09C4,
                until: Cond::Bits { mask: 0x0001, want: 0 },
                budget: patience,
                met: true,
            })
            &&& script[9 + k / 2] matches Step::Read16 { addr: from, value: word }
            &&& from == 0x09CA
            &&& output[k] == if k % 2 == 0 {
                word % 256
            } else {
                word / 256
            }
        }),
{
    let script = block_script(input, output, patience);
    let i = k / 2;
    assert(script[i] == writes(AESADIN, words(input))[i]);
    assert(script[9 + i] == reads(AESADOUT, words(output))[i]);
    assert(words(input)[i] == input[2 * i] + 256 * input[2 * i + 1]);
    assert(words(output)[i] == output[2 * i] + 256 * output[2 * i + 1]);
}

/// What the engine gets and what becomes of its answer, byte by byte. Without
/// chaining it gets the data and its answer is the result. Encrypting with
/// chaining it gets the data combined with the cipher block before, and its
/// answer is the result; decrypting it gets the data, and its answer combined
/// with the cipher block before is the result. Before the first block stands the
/// initialization vector.
pub proof fn lemma_blocks_chained(
    op: Op,
    iv: Option<Seq<u8>>,
    before: Seq<u8>,
    after: Seq<u8>,
    outs: Seq<Seq<u8>>,
    i: int,
    k: int,
)
    requires
        transformed(op, iv, before, after, outs),
        0 <= i < outs.len(),
        0 <= k < 16,
        iv matches Some(v) ==> v.len() == 16,
    ensures
        ({
            let at = 16 * i + k;
            let input = fed(op, iv, before, outs.take(i))[k];
            match iv {
                None => input == before[at] && after[at] == outs[i][k],
                Some(v) => {
                    let ciphers = if op == Op::Encrypt {
                        after
                    } else {
                        before
                    };
                    let link = if i == 0 {
                        v[k]
                    } else {
                        ciphers[at - 16]
                    };
                    if op == Op::Encrypt {
                        input == before[at] ^ link && after[at] == outs[i][k]
                    } else {
                        input == before[at] && after[at] == outs[i][k] ^ link
                    }
                },
            }
        }),
{
    let at = 16 * i + k;
    let done = outs.take(i);
    assert(outs[i].len() == 16);
    assert(block(after, i) == replacement(op, iv, before, done, outs[i]));
    assert(block(after, i)[k] == after[at]);
    assert(block(before, i)[k] == before[at]);
    if i > 0 {
        assert(outs[i - 1].len() == 16);
        assert(done.last() == outs[i - 1]);
        assert(block(after, i - 1) == replacement(op, iv, before, outs.take(i - 1), outs[i - 1]));
        assert(block(after, i - 1)[k] == after[at - 16]);
        assert(block(before, i - 1)[k] == before[at - 16]);
    }
}

/// Where the registers lie, and which bits and values they have.
pub proof fn lemma_layout()
    ensures
        AESACTL0 == 0x09C0,
        AESASTAT == 0x09C4,
        AESAKEY == 0x09C6,
        AESADIN == 0x09C8,
        AESADOUT == 0x09CA,
        BLOCK_SIZE == 16,
        AESSWRST == 128,
        AESBUSY == 1,
        AESKEYWR == 2,
{
}

/// The key counts as loaded for an operation exactly when it went through: after a
/// stall it is loaded anew, whatever was loaded before, and data that is refused
/// changes nothing.
pub proof fn lemma_stall_loses_key<H: Hardware>(
    op: Op,
    iv: Option<Seq<u8>>,
    before: Aes,
    after: Aes,
    data: Seq<u8>,
    result: Seq<u8>,
    r: Result<(), Error>,
    pre: Bus<H>,
    post: Bus<H>,
)
    requires
        operated(op, iv, before, after, data, result, r, pre, post),
    ensures
        r == Err::<(), Error>(Error::Stalled) ==> after.direction() is None,
        r is Ok && data.len() > 0 ==> after.direction() == Some(op),
        r is Ok ==> data.len() % 16 == 0,
        data.len() % 16 != 0 ==> r == Err::<(), Error>(Error::NotBlockAligned) && result =~= data
            && post@ =~= pre@ && after.direction() == before.direction(),
{
    let (outs, stall) = choose|outs: Seq<Seq<u8>>, stall: Option<StallAt>|
        {
            &&& run_outcome(before.direction(), op, data, outs, stall, r)
            &&& transformed(op, iv, data, result, outs)
            &&& after.direction() == direction_after(before.direction(), op, outs, stall)
            &&& post.ran(
                pre,
                #[trigger] run_script(
                    before.secret(),
                    before.direction(),
                    op,
                    iv,
                    data,
                    outs,
                    stall,
                    pre.patience(),
                ),
            )
        };
    assert(outs.len() >= 0);
}

} // verus!
