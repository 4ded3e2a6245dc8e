//! Syscalls that hash, and that multiply curve points.
use crate::context::{charge_result, charged, ComputeMeter};
use crate::error::{refused, rejected, EbpfError, InstructionError, SyscallError};
use crate::guest::{
    changed_only_at, changed_within, first_error, list_error, pointer_error, read_byte_string,
    window, Outcome, Window,
};
use crate::memory::{
    bytes_at, host_address, law_accesses_are_made_of_bytes, law_write_is_local, regions_apart,
    translate_slice, translate_type, written, HostMemory, MemoryRegion,
};
use crate::pubkey::Pubkey;
use vstd::prelude::*;

verus! {

/// Number of bytes of a hash.
pub const HASH_BYTES: u64 = 32;

/// The SHA-256 digest of a byte string.
pub uninterp spec fn sha256_digest(bytes: Seq<u8>) -> [u8; 32];

/// Calls `solana_sdk::hash::Hasher`: hashes one byte string and takes the result, which goes by
/// the name `sha256_digest`.
#[verifier::external_body]
fn sha256(bytes: &[u8]) -> (r: [u8; 32])
    ensures
        r == sha256_digest(bytes@),
{
    let mut hasher = solana_sdk::hash::Hasher::default();
    hasher.hash(bytes);
    hasher.result().to_bytes()
}

/// SHA256
#[derive(Debug, Clone, Copy)]
pub struct SyscallSha256<'a> {
    pub sha256_base_cost: u64,
    pub sha256_byte_cost: u64,
    pub loader_id: &'a Pubkey,
}

/// Bytes that were read one string after the other, or why that ended, and the meter that paid
/// for them.
pub struct Gathered {
    pub bytes: Result<Seq<u8>, EbpfError>,
    pub meter: ComputeMeter,
}

/// The price of hashing `len` bytes.
pub open spec fn byte_price(byte_cost: u64, len: u64) -> u64 {
    (byte_cost * (len / 2)) as u64
}

/// The first `n` byte strings behind each other. Each is paid for once it was read; the first that
/// cannot be read or paid decides.
pub open spec fn gathered(
    ro: Window,
    at: int,
    byte_cost: u64,
    meter: ComputeMeter,
    n: nat,
) -> Gathered
    decreases n,
{
    if n == 0 {
        Gathered { bytes: Ok(seq![]), meter }
    } else {
        let before = gathered(ro, at, byte_cost, meter, (n - 1) as nat);
        let price = byte_price(byte_cost, ro.word(at + 16 * (n - 1) + 8));
        match before.bytes {
            Err(_) => before,
            Ok(head) => match ro.nth_byte_string(at, n - 1) {
                Err(e) => Gathered { bytes: Err(e), meter: before.meter },
                Ok(bytes) => Gathered {
                    bytes: match charge_result(before.meter, price) {
                        Err(e) => Err(e),
                        Ok(_) => Ok(head + bytes),
                    },
                    meter: charged(before.meter, price),
                },
            },
        }
    }
}

/// Whether the prices that are asked are numbers of the machine: those of the byte strings that
/// can be read after all before them were read and paid.
pub open spec fn prices_fit(
    ro: Window,
    at: int,
    byte_cost: u64,
    meter: ComputeMeter,
    n: nat,
) -> bool {
    forall|i: int|
        0 <= i < n && gathered(ro, at, byte_cost, meter, i as nat).bytes is Ok
            && #[trigger] ro.nth_byte_string(at, i) is Ok ==> byte_cost * (ro.word(at + 16 * i + 8)
            / 2) <= u64::MAX
}

/// Whether the prices that a hash asks are numbers of the machine. None is asked before the base
/// price was paid, and the result and the values were found.
pub open spec fn hash_prices_fit(
    ro: Window,
    rw: Window,
    base_cost: u64,
    byte_cost: u64,
    meter: ComputeMeter,
    vals_addr: u64,
    vals_len: u64,
    result_addr: u64,
) -> bool {
    charge_result(meter, base_cost) is Ok && rw.values(result_addr, HASH_BYTES, 1, 1) is Ok
        && ro.values(vals_addr, vals_len, 16, 8) is Ok ==> prices_fit(
        ro,
        ro.values(vals_addr, vals_len, 16, 8)->Ok_0 as int,
        byte_cost,
        charged(meter, base_cost),
        vals_len as nat,
    )
}

/// Law: all prices of a hash fit if that of as many bytes as the memory has fits.
pub proof fn law_hash_prices_fit(
    ro: Window,
    rw: Window,
    base_cost: u64,
    byte_cost: u64,
    meter: ComputeMeter,
    vals_addr: u64,
    vals_len: u64,
    result_addr: u64,
)
    requires
        ro.is_valid(),
        byte_cost * (ro.memory.len() as int / 2) <= u64::MAX,
    ensures
        hash_prices_fit(
            ro,
            rw,
            base_cost,
            byte_cost,
            meter,
            vals_addr,
            vals_len,
            result_addr,
        ),
{
    if let Ok(at) = ro.values(vals_addr, vals_len, 16, 8) {
        assert forall|i: int|
            0 <= i < vals_len && #[trigger] ro.nth_byte_string(
                at as int,
                i,
            ) is Ok implies byte_cost * (ro.word(at + 16 * i + 8) / 2) <= u64::MAX by {
            let vm_addr = ro.word(at + 16 * i);
            let len = ro.word(at + 16 * i + 8);
            crate::memory::lemma_translated_slice_in_memory(
                ro.regions,
                ro.loader_id,
                vm_addr,
                len,
                1,
                1,
                ro.memory.len() as int,
            );
            assert(byte_cost * (len / 2) <= byte_cost * (ro.memory.len() as int / 2))
                by (nonlinear_arith)
                requires
                    len <= ro.memory.len(),
                    byte_cost >= 0,
            ;
        }
    }
}

/// The first byte string that fails decides.
proof fn lemma_gathered_error(
    ro: Window,
    at: int,
    byte_cost: u64,
    meter: ComputeMeter,
    k: nat,
    n: nat,
)
    requires
        k <= n,
        gathered(ro, at, byte_cost, meter, k).bytes is Err,
    ensures
        gathered(ro, at, byte_cost, meter, n) == gathered(ro, at, byte_cost, meter, k),
    decreases n,
{
    if k < n {
        lemma_gathered_error(ro, at, byte_cost, meter, k, (n - 1) as nat);
    }
}

/// Law: what is gathered from byte strings that can all be read and paid is those byte strings,
/// one behind the other.
pub proof fn law_gathered_is_concatenation(
    ro: Window,
    at: int,
    byte_cost: u64,
    meter: ComputeMeter,
    n: nat,
)
    requires
        gathered(ro, at, byte_cost, meter, n).bytes is Ok,
    ensures
        ro.byte_strings(at, n) is Ok,
        gathered(ro, at, byte_cost, meter, n).bytes->Ok_0 == ro.byte_strings(
            at,
            n,
        )->Ok_0.flatten(),
    decreases n,
{
    let strings = ro.byte_strings(at, n)->Ok_0;
    if n == 0 {
        assert(strings.flatten() =~= Seq::<u8>::empty());
    } else {
        law_gathered_is_concatenation(ro, at, byte_cost, meter, (n - 1) as nat);
        let before = ro.byte_strings(at, (n - 1) as nat)->Ok_0;
        let last = ro.nth_byte_string(at, n - 1)->Ok_0;
        assert(strings == before.push(last));
        assert(strings.drop_last() =~= before);
        strings.lemma_flatten_and_flatten_alt_are_equivalent();
        before.lemma_flatten_and_flatten_alt_are_equivalent();
    }
}

/// Reads byte strings behind each other, and pays for them.
fn gather(
    at: u64,
    n: u64,
    byte_cost: u64,
    ro_regions: &[MemoryRegion],
    loader_id: &Pubkey,
    memory: &HostMemory,
    compute_meter: &mut ComputeMeter,
) -> (r: Result<Vec<u8>, EbpfError>)
    requires
        window(ro_regions, loader_id, memory).is_valid(),
        at + n * 16 <= memory@.len(),
        prices_fit(
            window(ro_regions, loader_id, memory),
            at as int,
            byte_cost,
            *old(compute_meter),
            n as nat,
        ),
    ensures
        *final(compute_meter) == gathered(
            window(ro_regions, loader_id, memory),
            at as int,
            byte_cost,
            *old(compute_meter),
            n as nat,
        ).meter,
        crate::guest::view_result(r) == gathered(
            window(ro_regions, loader_id, memory),
            at as int,
            byte_cost,
            *old(compute_meter),
            n as nat,
        ).bytes,
{
    let ghost ro = window(ro_regions, loader_id, memory);
    let mut bytes: Vec<u8> = Vec::new();
    let mut i: u64 = 0;
    assert(bytes@ =~= seq![]);
    while i < n
        invariant
            i <= n,
            ro == window(ro_regions, loader_id, memory),
            ro.is_valid(),
            at + n * 16 <= memory@.len(),
            prices_fit(ro, at as int, byte_cost, *old(compute_meter), n as nat),
            gathered(ro, at as int, byte_cost, *old(compute_meter), i as nat) == (Gathered {
                bytes: Ok(bytes@),
                meter: *compute_meter,
            }),
        decreases n - i,
    {
        assert(memory.bytes.len() <= usize::MAX);
        let len: u64 = memory.read_u64(at + 16 * i + 8);
        let mut value = match read_byte_string(
            memory.read_u64(at + 16 * i),
            len,
            ro_regions,
            loader_id,
            memory,
        ) {
            Ok(value) => value,
            Err(e) => {
                proof {
                    lemma_gathered_error(
                        ro,
                        at as int,
                        byte_cost,
                        *old(compute_meter),
                        (i + 1) as nat,
                        n as nat,
                    );
                }
                return Err(e);
            },
        };
        assert(ro.nth_byte_string(at as int, i as int) is Ok);
        match compute_meter.consume(byte_cost * (len / 2)) {
            Ok(()) => (),
            Err(e) => {
                proof {
                    lemma_gathered_error(
                        ro,
                        at as int,
                        byte_cost,
                        *old(compute_meter),
                        (i + 1) as nat,
                        n as nat,
                    );
                }
                return Err(e);
            },
        }
        bytes.append(&mut value);
        i = i + 1;
    }
    Ok(bytes)
}

/// What a hash comes to. The place for the result is found before the values are read.
pub open spec fn sha256_outcome(
    ro: Window,
    rw: Window,
    base_cost: u64,
    byte_cost: u64,
    meter: ComputeMeter,
    vals_addr: u64,
    vals_len: u64,
    result_addr: u64,
) -> Outcome {
    let memory = rw.memory;
    let paid = charged(meter, base_cost);
    match charge_result(meter, base_cost) {
        Err(e) => Outcome { result: Err(e), meter: paid, memory },
        Ok(_) => match rw.values(result_addr, HASH_BYTES, 1, 1) {
            Err(e) => Outcome { result: Err(e), meter: paid, memory },
            Ok(result_at) => if vals_len == 0 {
                Outcome {
                    result: Ok(0),
                    meter: paid,
                    memory: written(memory, result_at as int, sha256_digest(seq![])@),
                }
            } else {
                match ro.values(vals_addr, vals_len, 16, 8) {
                    Err(e) => Outcome { result: Err(e), meter: paid, memory },
                    Ok(at) => {
                        let all = gathered(ro, at as int, byte_cost, paid, vals_len as nat);
                        match all.bytes {
                            Err(e) => Outcome { result: Err(e), meter: all.meter, memory },
                            Ok(bytes) => Outcome {
                                result: Ok(0),
                                meter: all.meter,
                                memory: written(memory, result_at as int, sha256_digest(bytes)@),
                            },
                        }
                    },
                }
            },
        },
    }
}

/// Whether the prices of byte strings that are asked are numbers of the machine.
fn gathering_prices_fit(
    at: u64,
    n: u64,
    byte_cost: u64,
    ro_regions: &[MemoryRegion],
    loader_id: &Pubkey,
    memory: &HostMemory,
    compute_meter: ComputeMeter,
) -> (r: bool)
    requires
        window(ro_regions, loader_id, memory).is_valid(),
        at + n * 16 <= memory@.len(),
    ensures
        r == prices_fit(
            window(ro_regions, loader_id, memory),
            at as int,
            byte_cost,
            compute_meter,
            n as nat,
        ),
{
    let ghost ro = window(ro_regions, loader_id, memory);
    let mut meter = compute_meter;
    let mut i: u64 = 0;
    while i < n
        invariant
            i <= n,
            ro == window(ro_regions, loader_id, memory),
            ro.is_valid(),
            at + n * 16 <= memory@.len(),
            prices_fit(ro, at as int, byte_cost, compute_meter, i as nat),
            gathered(ro, at as int, byte_cost, compute_meter, i as nat).bytes is Ok,
            gathered(ro, at as int, byte_cost, compute_meter, i as nat).meter == meter,
        decreases n - i,
    {
        assert(memory.bytes.len() <= usize::MAX);
        let len: u64 = memory.read_u64(at + 16 * i + 8);
        let is_read = read_byte_string(
            memory.read_u64(at + 16 * i),
            len,
            ro_regions,
            loader_id,
            memory,
        ).is_ok();
        let mut is_paid = false;
        if is_read {
            assert(ro.nth_byte_string(at as int, i as int) is Ok);
            match byte_cost.checked_mul(len / 2) {
                None => {
                    return false;
                },
                Some(price) => {
                    is_paid = meter.consume(price).is_ok();
                },
            }
        }
        if !is_paid {
            assert forall|j: int|
                i < j < n && #[trigger] ro.nth_byte_string(at as int, j) is Ok implies gathered(
                ro,
                at as int,
                byte_cost,
                compute_meter,
                j as nat,
            ).bytes is Err by {
                lemma_gathered_error(
                    ro,
                    at as int,
                    byte_cost,
                    compute_meter,
                    (i + 1) as nat,
                    j as nat,
                );
            }
            return true;
        }
        i = i + 1;
    }
    true
}

impl<'a> SyscallSha256<'a> {
    /// Whether the prices that a hash asks are numbers of the machine.
    pub fn prices_fit(
        &self,
        vals_addr: u64,
        vals_len: u64,
        result_addr: u64,
        ro_regions: &[MemoryRegion],
        rw_regions: &[MemoryRegion],
        memory: &HostMemory,
        compute_meter: &ComputeMeter,
    ) -> (r: bool)
        requires
            window(ro_regions, self.loader_id, memory).is_valid(),
            window(rw_regions, self.loader_id, memory).is_valid(),
        ensures
            r == hash_prices_fit(
                window(ro_regions, self.loader_id, memory),
                window(rw_regions, self.loader_id, memory),
                self.sha256_base_cost,
                self.sha256_byte_cost,
                *compute_meter,
                vals_addr,
                vals_len,
                result_addr,
            ),
    {
        let mut meter = *compute_meter;
        if meter.consume(self.sha256_base_cost).is_err() {
            return true;
        }
        if translate_slice(
            result_addr,
            HASH_BYTES,
            1,
            1,
            rw_regions,
            self.loader_id,
            memory,
        ).is_err() {
            return true;
        }
        match translate_slice(
            vals_addr,
            vals_len,
            16,
            8,
            ro_regions,
            self.loader_id,
            memory,
        ) {
            Err(_) => true,
            Ok(vals) => vals_len == 0 || gathering_prices_fit(
                vals,
                vals_len,
                self.sha256_byte_cost,
                ro_regions,
                self.loader_id,
                memory,
                meter,
            ),
        }
    }

    /// Hashes byte strings as one, and writes the hash to the program's memory.
    pub fn call(
        &self,
        vals_addr: u64,
        vals_len: u64,
        result_addr: u64,
        _arg4: u64,
        _arg5: u64,
        ro_regions: &[MemoryRegion],
        rw_regions: &[MemoryRegion],
        memory: &mut HostMemory,
        compute_meter: &mut ComputeMeter,
    ) -> (r: Result<u64, EbpfError>)
        requires
            window(ro_regions, self.loader_id, old(memory)).is_valid(),
            window(rw_regions, self.loader_id, old(memory)).is_valid(),
            hash_prices_fit(
                window(ro_regions, self.loader_id, old(memory)),
                window(rw_regions, self.loader_id, old(memory)),
                self.sha256_base_cost,
                self.sha256_byte_cost,
                *old(compute_meter),
                vals_addr,
                vals_len,
                result_addr,
            ),
        ensures
            (Outcome { result: r, meter: *final(compute_meter), memory: final(memory)@ })
                == sha256_outcome(
                window(ro_regions, self.loader_id, old(memory)),
                window(rw_regions, self.loader_id, old(memory)),
                self.sha256_base_cost,
                self.sha256_byte_cost,
                *old(compute_meter),
                vals_addr,
                vals_len,
                result_addr,
            ),
            final(memory)@.len() == old(memory)@.len(),
    {
        compute_meter.consume(self.sha256_base_cost)?;
        let hash_result: u64 = translate_slice(
            result_addr,
            HASH_BYTES,
            1,
            1,
            rw_regions,
            self.loader_id,
            memory,
        )?;
        let bytes: Vec<u8>;
        if vals_len > 0 {
            let vals: u64 = translate_slice(
                vals_addr,
                vals_len,
                16,
                8,
                ro_regions,
                self.loader_id,
                memory,
            )?;
            bytes =
            gather(
                vals,
                vals_len,
                self.sha256_byte_cost,
                ro_regions,
                self.loader_id,
                memory,
                compute_meter,
            )?;
        } else {
            bytes = Vec::new();
            assert(bytes@ =~= seq![]);
        }
        let digest = sha256(bytes.as_slice());
        memory.write_bytes(hash_result, digest.as_slice());
        Ok(0)
    }
}

/// The meter never gains units while byte strings are paid for.
proof fn lemma_gathering_is_paid(ro: Window, at: int, byte_cost: u64, meter: ComputeMeter, n: nat)
    ensures
        gathered(ro, at, byte_cost, meter, n).meter.remaining <= meter.remaining,
    decreases n,
{
    if n > 0 {
        lemma_gathering_is_paid(ro, at, byte_cost, meter, (n - 1) as nat);
    }
}

/// Law: a hash changes the program's memory only where the program may write, and only if it
/// succeeds. It never adds compute units.
pub proof fn law_sha256_is_contained(
    ro: Window,
    rw: Window,
    base_cost: u64,
    byte_cost: u64,
    meter: ComputeMeter,
    vals_addr: u64,
    vals_len: u64,
    result_addr: u64,
)
    requires
        rw.is_valid(),
    ensures
        ({
            let outcome = sha256_outcome(
                ro,
                rw,
                base_cost,
                byte_cost,
                meter,
                vals_addr,
                vals_len,
                result_addr,
            );
            &&& changed_within(rw, rw.memory, outcome.memory)
            &&& outcome.result is Err ==> outcome.memory == rw.memory
            &&& outcome.meter.remaining <= meter.remaining
        }),
{
    let paid = charged(meter, base_cost);
    let at = ro.values(vals_addr, vals_len, 16, 8)->Ok_0 as int;
    lemma_gathering_is_paid(ro, at, byte_cost, paid, vals_len as nat);
    if rw.values(result_addr, HASH_BYTES, 1, 1) is Ok {
        let bytes = gathered(ro, at, byte_cost, paid, vals_len as nat).bytes->Ok_0;
        rw.lemma_write_is_within(result_addr, sha256_digest(seq![])@);
        rw.lemma_write_is_within(result_addr, sha256_digest(bytes)@);
    }
}

/// What a hash that succeeds is taken of: the values, one behind the other.
pub open spec fn hashed_bytes(ro: Window, vals_addr: u64, vals_len: u64) -> Seq<u8> {
    if vals_len == 0 {
        seq![]
    } else {
        ro.byte_strings(
            ro.values(vals_addr, vals_len, 16, 8)->Ok_0 as int,
            vals_len as nat,
        )->Ok_0.flatten()
    }
}

/// Law: a hash that succeeds writes the digest of its values, one behind the other, to the place
/// that was asked for. Without values that is the digest of nothing, wherever they would be.
pub proof fn law_hash_is_the_digest_of_the_values(
    ro: Window,
    rw: Window,
    base_cost: u64,
    byte_cost: u64,
    meter: ComputeMeter,
    vals_addr: u64,
    vals_len: u64,
    result_addr: u64,
)
    requires
        rw.is_valid(),
        sha256_outcome(
            ro,
            rw,
            base_cost,
            byte_cost,
            meter,
            vals_addr,
            vals_len,
            result_addr,
        ).result is Ok,
    ensures
        rw.values(result_addr, HASH_BYTES, 1, 1) is Ok,
        bytes_at(
            sha256_outcome(
                ro,
                rw,
                base_cost,
                byte_cost,
                meter,
                vals_addr,
                vals_len,
                result_addr,
            ).memory,
            rw.values(result_addr, HASH_BYTES, 1, 1)->Ok_0 as int,
            HASH_BYTES as int,
        ) == sha256_digest(hashed_bytes(ro, vals_addr, vals_len))@,
{
    let bytes = hashed_bytes(ro, vals_addr, vals_len);
    if vals_len > 0 {
        law_gathered_is_concatenation(
            ro,
            ro.values(vals_addr, vals_len, 16, 8)->Ok_0 as int,
            byte_cost,
            charged(meter, base_cost),
            vals_len as nat,
        );
    }
    rw.lemma_bytes_are_reached(result_addr, HASH_BYTES);
    law_write_is_local(
        rw.memory,
        rw.values(result_addr, HASH_BYTES, 1, 1)->Ok_0 as int,
        sha256_digest(bytes)@,
    );
}

/// A hash syscall: its windows, its prices, its meter and its arguments.
pub struct HashCall {
    pub ro: Window,
    pub rw: Window,
    pub base_cost: u64,
    pub byte_cost: u64,
    pub meter: ComputeMeter,
    pub vals_addr: u64,
    pub vals_len: u64,
    pub result_addr: u64,
}

impl HashCall {
    /// What the syscall leaves behind.
    pub open spec fn outcome(self) -> Outcome {
        sha256_outcome(
            self.ro,
            self.rw,
            self.base_cost,
            self.byte_cost,
            self.meter,
            self.vals_addr,
            self.vals_len,
            self.result_addr,
        )
    }

    /// What the syscall leaves at the place of its result.
    pub open spec fn hash(self) -> Seq<u8> {
        bytes_at(
            self.outcome().memory,
            self.rw.values(self.result_addr, HASH_BYTES, 1, 1)->Ok_0 as int,
            HASH_BYTES as int,
        )
    }
}

/// Law: how values are split does not matter. Two hashes that succeed write the same bytes if
/// their values, one behind the other, are the same bytes.
pub proof fn law_splits_do_not_matter(a: HashCall, b: HashCall)
    requires
        a.rw.is_valid(),
        b.rw.is_valid(),
        a.outcome().result is Ok,
        b.outcome().result is Ok,
        hashed_bytes(a.ro, a.vals_addr, a.vals_len) == hashed_bytes(
            b.ro,
            b.vals_addr,
            b.vals_len,
        ),
    ensures
        a.hash() == b.hash(),
        a.hash() == sha256_digest(hashed_bytes(a.ro, a.vals_addr, a.vals_len))@,
{
    law_hash_is_the_digest_of_the_values(
        a.ro,
        a.rw,
        a.base_cost,
        a.byte_cost,
        a.meter,
        a.vals_addr,
        a.vals_len,
        a.result_addr,
    );
    law_hash_is_the_digest_of_the_values(
        b.ro,
        b.rw,
        b.base_cost,
        b.byte_cost,
        b.meter,
        b.vals_addr,
        b.vals_len,
        b.result_addr,
    );
}

/// Number of bytes of a curve point in a program's memory.
pub const RISTRETTO_POINT_BYTES: u64 = 160;

/// Number of bytes of a scalar in a program's memory.
pub const SCALAR_BYTES: u64 = 32;

/// Ristretto point multiply
#[derive(Debug, Clone, Copy)]
pub struct SyscallRistrettoMul<'a> {
    pub cost: u64,
    pub loader_id: &'a Pubkey,
}

/// A multiplication that was paid for: its operands as they stand in memory, and the host address
/// of its result.
#[derive(Debug)]
pub struct RistrettoOperands {
    pub point: Vec<u8>,
    pub scalar: Vec<u8>,
    pub result: u64,
}

/// Contents of the operands.
pub struct RistrettoOperandsView {
    pub point: Seq<u8>,
    pub scalar: Seq<u8>,
    pub result: u64,
}

impl View for RistrettoOperands {
    type V = RistrettoOperandsView;

    open spec fn view(&self) -> RistrettoOperandsView {
        RistrettoOperandsView { point: self.point@, scalar: self.scalar@, result: self.result }
    }
}

/// What reading the operands comes to.
pub open spec fn ristretto_operands(
    ro: Window,
    rw: Window,
    point_addr: u64,
    scalar_addr: u64,
    result_addr: u64,
) -> Result<RistrettoOperandsView, EbpfError> {
    match ro.value(point_addr, RISTRETTO_POINT_BYTES, 8) {
        Err(e) => Err(e),
        Ok(point) => match ro.value(scalar_addr, SCALAR_BYTES, 1) {
            Err(e) => Err(e),
            Ok(scalar) => match rw.value(result_addr, RISTRETTO_POINT_BYTES, 8) {
                Err(e) => Err(e),
                Ok(result) => Ok(
                    RistrettoOperandsView {
                        point: ro.bytes(point as int, RISTRETTO_POINT_BYTES as int),
                        scalar: ro.bytes(scalar as int, SCALAR_BYTES as int),
                        result,
                    },
                ),
            },
        },
    }
}

/// What starting a multiplication comes to: its operands, and the meter that paid for it.
pub open spec fn begun_product(
    ro: Window,
    rw: Window,
    cost: u64,
    meter: ComputeMeter,
    point_addr: u64,
    scalar_addr: u64,
    result_addr: u64,
) -> (Result<RistrettoOperandsView, EbpfError>, ComputeMeter) {
    (
        match charge_result(meter, cost) {
            Err(e) => Err(e),
            Ok(_) => ristretto_operands(ro, rw, point_addr, scalar_addr, result_addr),
        },
        charged(meter, cost),
    )
}

/// The memory after a product was written to it.
pub open spec fn with_product(memory: Seq<u8>, result: u64, product: Seq<u8>) -> Seq<u8> {
    written(memory, result as int, product)
}

impl<'a> SyscallRistrettoMul<'a> {
    /// Pays for a multiplication and reads its operands.
    pub fn begin(
        &self,
        point_addr: u64,
        scalar_addr: u64,
        result_addr: u64,
        ro_regions: &[MemoryRegion],
        rw_regions: &[MemoryRegion],
        memory: &HostMemory,
        compute_meter: &mut ComputeMeter,
    ) -> (r: Result<RistrettoOperands, EbpfError>)
        requires
            window(ro_regions, self.loader_id, memory).is_valid(),
            window(rw_regions, self.loader_id, memory).is_valid(),
        ensures
            *final(compute_meter) == charged(*old(compute_meter), self.cost),
            crate::guest::view_result(r) == match charge_result(*old(compute_meter), self.cost) {
                Err(e) => Err(e),
                Ok(_) => ristretto_operands(
                    window(ro_regions, self.loader_id, memory),
                    window(rw_regions, self.loader_id, memory),
                    point_addr,
                    scalar_addr,
                    result_addr,
                ),
            },
            r is Ok ==> r->Ok_0.result + RISTRETTO_POINT_BYTES <= memory@.len(),
            (crate::guest::view_result(r), *final(compute_meter)) == begun_product(
                window(ro_regions, self.loader_id, memory),
                window(rw_regions, self.loader_id, memory),
                self.cost,
                *old(compute_meter),
                point_addr,
                scalar_addr,
                result_addr,
            ),
    {
        compute_meter.consume(self.cost)?;
        let point: u64 = translate_type(
            point_addr,
            RISTRETTO_POINT_BYTES,
            8,
            ro_regions,
            self.loader_id,
            memory,
        )?;
        let scalar: u64 = translate_type(
            scalar_addr,
            SCALAR_BYTES,
            1,
            ro_regions,
            self.loader_id,
            memory,
        )?;
        let result: u64 = translate_type(
            result_addr,
            RISTRETTO_POINT_BYTES,
            8,
            rw_regions,
            self.loader_id,
            memory,
        )?;
        Ok(
            RistrettoOperands {
                point: memory.read_bytes(point, RISTRETTO_POINT_BYTES),
                scalar: memory.read_bytes(scalar, SCALAR_BYTES),
                result,
            },
        )
    }

    /// Writes the product to the program's memory.
    pub fn finish(&self, result: u64, product: &[u8; 160], memory: &mut HostMemory) -> (r: Result<
        u64,
        EbpfError,
    >)
        requires
            result + RISTRETTO_POINT_BYTES <= old(memory)@.len(),
        ensures
            r == Ok::<u64, EbpfError>(0),
            final(memory)@ == written(old(memory)@, result as int, product@),
            final(memory)@ == with_product(old(memory)@, result, product@),
            final(memory)@.len() == old(memory)@.len(),
    {
        memory.write_bytes(result, product.as_slice());
        Ok(0)
    }
}

/// Law: a product changes the program's memory only where the program may write.
pub proof fn law_ristretto_is_contained(
    ro: Window,
    rw: Window,
    point_addr: u64,
    scalar_addr: u64,
    result_addr: u64,
    product: Seq<u8>,
)
    requires
        rw.is_valid(),
        product.len() == RISTRETTO_POINT_BYTES,
        ristretto_operands(ro, rw, point_addr, scalar_addr, result_addr) is Ok,
    ensures
        changed_within(
            rw,
            rw.memory,
            written(
                rw.memory,
                ristretto_operands(
                    ro,
                    rw,
                    point_addr,
                    scalar_addr,
                    result_addr,
                )->Ok_0.result as int,
                product,
            ),
        ),
{
    let result = rw.value(result_addr, RISTRETTO_POINT_BYTES, 8)->Ok_0 as int;
    rw.lemma_value_is_reached(result_addr, RISTRETTO_POINT_BYTES, 8);
    law_write_is_local(rw.memory, result, product);
}

/// Whether the operands of a multiplication are the bytes that stand at their virtual addresses,
/// one behind the other, where the program may read, and the result is the host address behind one
/// where it may write.
pub open spec fn shows_operands(
    ro: Window,
    rw: Window,
    point_addr: u64,
    scalar_addr: u64,
    result_addr: u64,
    o: RistrettoOperandsView,
) -> bool {
    &&& o.point.len() == 160
    &&& ro.is_aligned(point_addr as int, 8)
    &&& ro.shows(point_addr as int, o.point)
    &&& o.scalar.len() == 32
    &&& ro.shows(scalar_addr as int, o.scalar)
    &&& rw.is_aligned(result_addr as int, 8)
    &&& host_address(rw.regions, result_addr as int, 160) == Some(o.result as int)
}

/// Law: a multiplication has the operands that stand at the addresses that the program gave, as
/// they stand there, and only if they stand there.
pub proof fn law_operands_are_read_as_they_stand(
    ro: Window,
    rw: Window,
    point_addr: u64,
    scalar_addr: u64,
    result_addr: u64,
    o: RistrettoOperandsView,
)
    requires
        ro.is_valid(),
        rw.is_valid(),
    ensures
        ristretto_operands(ro, rw, point_addr, scalar_addr, result_addr) == Ok::<_, EbpfError>(o)
            <==> shows_operands(ro, rw, point_addr, scalar_addr, result_addr, o),
{
    reveal(crate::memory::translated);
    crate::memory::lemma_host_address_in_memory(
        rw.regions,
        result_addr as int,
        160,
        rw.memory.len() as int,
    );
    if shows_operands(ro, rw, point_addr, scalar_addr, result_addr, o) {
        ro.lemma_shown_value(point_addr, o.point, 8);
        ro.lemma_shown_value(scalar_addr, o.scalar, 1);
    }
    if ristretto_operands(ro, rw, point_addr, scalar_addr, result_addr) == Ok::<_, EbpfError>(o) {
        ro.lemma_read_is_shown(point_addr, 160);
        ro.lemma_read_is_shown(scalar_addr, 32);
    }
}

/// Law: each byte of an operand is the byte that the program itself reads as far behind the address
/// that it gave, where its regions have no address in common.
pub proof fn law_operands_are_the_bytes_of_the_program(
    ro: Window,
    rw: Window,
    point_addr: u64,
    scalar_addr: u64,
    result_addr: u64,
    k: int,
)
    requires
        ro.is_valid(),
        rw.is_valid(),
        regions_apart(ro.regions),
        ristretto_operands(ro, rw, point_addr, scalar_addr, result_addr) is Ok,
    ensures
        ({
            let o = ristretto_operands(ro, rw, point_addr, scalar_addr, result_addr)->Ok_0;
            &&& o.point.len() == 160 && o.scalar.len() == 32
            &&& 0 <= k < 160 ==> host_address(ro.regions, point_addr + k, 1) is Some && o.point[k]
                == ro.memory[host_address(ro.regions, point_addr + k, 1)->0]
            &&& 0 <= k < 32 ==> host_address(ro.regions, scalar_addr + k, 1) is Some && o.scalar[k]
                == ro.memory[host_address(ro.regions, scalar_addr + k, 1)->0]
        }),
{
    let o = ristretto_operands(ro, rw, point_addr, scalar_addr, result_addr)->Ok_0;
    law_operands_are_read_as_they_stand(ro, rw, point_addr, scalar_addr, result_addr, o);
    if 0 <= k < 160 {
        law_accesses_are_made_of_bytes(ro.regions, point_addr as int, 160, k);
        assert(o.point[k] == o.point[k]);
    }
    if 0 <= k < 32 {
        law_accesses_are_made_of_bytes(ro.regions, scalar_addr as int, 32, k);
        assert(o.scalar[k] == o.scalar[k]);
    }
}

/// Law: a product stands where the program asked for it, as it is, and nothing else changes.
pub proof fn law_product_is_found_by_the_program(
    ro: Window,
    rw: Window,
    point_addr: u64,
    scalar_addr: u64,
    result_addr: u64,
    product: Seq<u8>,
)
    requires
        rw.is_valid(),
        product.len() == 160,
        ristretto_operands(ro, rw, point_addr, scalar_addr, result_addr) is Ok,
    ensures
        ({
            let o = ristretto_operands(ro, rw, point_addr, scalar_addr, result_addr)->Ok_0;
            let after = with_product(rw.memory, o.result, product);
            &&& rw.with_memory(after).shows(result_addr as int, product)
            &&& changed_only_at(rw, result_addr as int, 160, after)
        }),
{
    reveal(crate::memory::translated);
    rw.lemma_written_is_shown(result_addr, product);
    law_write_is_local(rw.memory, rw.span(result_addr, 160)->Ok_0 as int, product);
}

/// Law: a multiplication is paid for before its operands are read. One that cannot be paid is
/// refused; one that is paid has the operands that stand in memory.
pub proof fn law_products_are_paid_for(
    ro: Window,
    rw: Window,
    cost: u64,
    meter: ComputeMeter,
    point_addr: u64,
    scalar_addr: u64,
    result_addr: u64,
    o: RistrettoOperandsView,
)
    requires
        ro.is_valid(),
        rw.is_valid(),
    ensures
        ({
            let (r, after) = begun_product(
                ro,
                rw,
                cost,
                meter,
                point_addr,
                scalar_addr,
                result_addr,
            );
            &&& meter.is_borrowed ==> r == Err::<RistrettoOperandsView, EbpfError>(
                refused(SyscallError::InvokeContextBorrowFailed),
            ) && after == meter
            &&& !meter.is_borrowed && cost > meter.remaining ==> r == Err::<
                RistrettoOperandsView,
                EbpfError,
            >(rejected(InstructionError::ComputationalBudgetExceeded)) && after.remaining == 0
            &&& !meter.is_borrowed && cost <= meter.remaining ==> after.remaining == meter.remaining
                - cost && (r == Ok::<_, EbpfError>(o) <==> shows_operands(
                ro,
                rw,
                point_addr,
                scalar_addr,
                result_addr,
                o,
            ))
        }),
{
    law_operands_are_read_as_they_stand(ro, rw, point_addr, scalar_addr, result_addr, o);
}

/// The price of hashing values: that of each is the price of a byte times half its length, rounded
/// down.
pub open spec fn price_of(values: Seq<Seq<u8>>, byte_cost: u64) -> int
    decreases values.len(),
{
    if values.len() == 0 {
        0
    } else {
        price_of(values.drop_last(), byte_cost) + byte_cost * (values.last().len() as int / 2)
    }
}

/// Values that can be read are paid for one by one, as long as there are units.
proof fn lemma_gathered_price(
    ro: Window,
    at: int,
    byte_cost: u64,
    meter: ComputeMeter,
    values: Seq<Seq<u8>>,
    n: nat,
)
    requires
        n <= values.len(),
        !meter.is_borrowed,
        forall|i: int|
            0 <= i < values.len() ==> ro.nth_byte_string(at, i) == Ok::<_, EbpfError>(
                #[trigger] values[i],
            ) && ro.word(at + 16 * i + 8) == values[i].len() && byte_cost * (values[i].len() as int
                / 2) <= u64::MAX,
    ensures
        0 <= price_of(values.take(n as int), byte_cost),
        ({
            let all = gathered(ro, at, byte_cost, meter, n);
            let price = price_of(values.take(n as int), byte_cost);
            &&& price <= meter.remaining ==> all.bytes is Ok && all.meter == (ComputeMeter {
                remaining: (meter.remaining - price) as u64,
                ..meter
            })
            &&& price > meter.remaining ==> all.bytes == Err::<Seq<u8>, EbpfError>(
                rejected(InstructionError::ComputationalBudgetExceeded),
            ) && all.meter == (ComputeMeter { remaining: 0, ..meter })
        }),
    decreases n,
{
    if n > 0 {
        let i = n - 1;
        lemma_gathered_price(ro, at, byte_cost, meter, values, (n - 1) as nat);
        assert(values.take(n as int).drop_last() =~= values.take(i));
        assert(values.take(n as int).last() == values[i]);
        assert(byte_cost * (values[i].len() as int / 2) >= 0) by (nonlinear_arith);
    }
}

/// Law: a hash of values that are described where the program may read is the digest of the values,
/// one behind the other. It stands where the program asked for it, nothing else changes, and the
/// base price and the prices of all values are paid. A program that cannot pay gets nothing.
pub proof fn law_described_values_are_hashed(
    ro: Window,
    rw: Window,
    base_cost: u64,
    byte_cost: u64,
    meter: ComputeMeter,
    vals_addr: u64,
    values: Seq<Seq<u8>>,
    result_addr: u64,
)
    requires
        ro.is_valid(),
        rw.is_valid(),
        values.len() <= u64::MAX / 16,
        ro.is_aligned(vals_addr as int, 8) || values.len() == 0,
        ro.shows_strings(vals_addr as int, values),
        !meter.is_borrowed,
        rw.holds(result_addr as int, 32),
        forall|i: int|
            0 <= i < values.len() ==> byte_cost * ((#[trigger] values[i]).len() as int / 2)
                <= u64::MAX,
    ensures
        ({
            let outcome = sha256_outcome(
                ro,
                rw,
                base_cost,
                byte_cost,
                meter,
                vals_addr,
                values.len() as u64,
                result_addr,
            );
            let price = base_cost + price_of(values, byte_cost);
            &&& price <= meter.remaining ==> {
                &&& outcome.result == Ok::<u64, EbpfError>(0)
                &&& outcome.meter.remaining == meter.remaining - price
                &&& rw.with_memory(outcome.memory).shows(
                    result_addr as int,
                    sha256_digest(values.flatten())@,
                )
                &&& changed_only_at(rw, result_addr as int, 32, outcome.memory)
            }
            &&& price > meter.remaining ==> outcome == (Outcome {
                result: Err(rejected(InstructionError::ComputationalBudgetExceeded)),
                meter: ComputeMeter { remaining: 0, ..meter },
                memory: rw.memory,
            })
        }),
{
    let paid = charged(meter, base_cost);
    let n = values.len();
    if n == 0 {
        assert(values.flatten() =~= Seq::<u8>::empty());
    } else {
        ro.law_described_strings_are_read(vals_addr, values);
        ro.lemma_described_lengths(vals_addr, values);
        let at = ro.values(vals_addr, n as u64, 16, 8)->Ok_0 as int;
        assert forall|i: int| 0 <= i < values.len() implies ro.nth_byte_string(at, i) == Ok::<
            _,
            EbpfError,
        >(#[trigger] values[i]) && ro.word(at + 16 * i + 8) == values[i].len() && byte_cost * (
        values[i].len() as int / 2) <= u64::MAX by {}
        lemma_gathered_price(ro, at, byte_cost, paid, values, n);
        assert(values.take(n as int) =~= values);
        if gathered(ro, at, byte_cost, paid, n).bytes is Ok {
            law_gathered_is_concatenation(ro, at, byte_cost, paid, n);
        }
    }
    let digest = sha256_digest(values.flatten())@;
    rw.lemma_written_is_shown(result_addr, digest);
    law_write_is_local(rw.memory, rw.span(result_addr, 32)->Ok_0 as int, digest);
}

/// Law: a hash succeeds only if its values are described where the program may read, and its result
/// can be written.
pub proof fn law_only_described_values_are_hashed(
    ro: Window,
    rw: Window,
    base_cost: u64,
    byte_cost: u64,
    meter: ComputeMeter,
    vals_addr: u64,
    vals_len: u64,
    result_addr: u64,
) -> (values: Seq<Seq<u8>>)
    requires
        ro.is_valid(),
        sha256_outcome(
            ro,
            rw,
            base_cost,
            byte_cost,
            meter,
            vals_addr,
            vals_len,
            result_addr,
        ).result is Ok,
    ensures
        values.len() == vals_len,
        vals_len > 0 ==> ro.is_aligned(vals_addr as int, 8),
        ro.shows_strings(vals_addr as int, values),
        rw.holds(result_addr as int, 32),
        !meter.is_borrowed,
        base_cost <= meter.remaining,
{
    reveal(crate::memory::translated);
    if vals_len == 0 {
        let none = Seq::<u8>::empty();
        assert(ro.shows(vals_addr as int, none) && ro.describes(none, Seq::<Seq<u8>>::empty()));
        Seq::<Seq<u8>>::empty()
    } else {
        let at = ro.values(vals_addr, vals_len, 16, 8)->Ok_0 as int;
        law_gathered_is_concatenation(
            ro,
            at,
            byte_cost,
            charged(meter, base_cost),
            vals_len as nat,
        );
        let values = ro.byte_strings(at, vals_len as nat)->Ok_0;
        ro.law_strings_are_read_where_described(vals_addr, vals_len, values);
        values
    }
}

/// Law: a hash that is not paid, or whose result cannot be written, is refused before its values
/// are read.
pub proof fn law_hashes_are_paid_and_placed_first(
    ro: Window,
    rw: Window,
    base_cost: u64,
    byte_cost: u64,
    meter: ComputeMeter,
    vals_addr: u64,
    vals_len: u64,
    result_addr: u64,
)
    ensures
        ({
            let outcome = sha256_outcome(
                ro,
                rw,
                base_cost,
                byte_cost,
                meter,
                vals_addr,
                vals_len,
                result_addr,
            );
            &&& meter.is_borrowed ==> outcome == (Outcome {
                result: Err(refused(SyscallError::InvokeContextBorrowFailed)),
                meter,
                memory: rw.memory,
            })
            &&& !meter.is_borrowed && base_cost > meter.remaining ==> outcome == (Outcome {
                result: Err(rejected(InstructionError::ComputationalBudgetExceeded)),
                meter: ComputeMeter { remaining: 0, ..meter },
                memory: rw.memory,
            })
            &&& !meter.is_borrowed && base_cost <= meter.remaining && !rw.holds(
                result_addr as int,
                32,
            ) ==> outcome == (Outcome {
                result: Err(EbpfError::AccessViolation(result_addr, 32)),
                meter: ComputeMeter { remaining: (meter.remaining - base_cost) as u64, ..meter },
                memory: rw.memory,
            })
        }),
{
    reveal(crate::memory::translated);
}

/// Law: of the pointers of a multiplication the first that is refused decides: those to the point,
/// to the scalar and to the result. Of those of a hash it is the one to the values, behind that to
/// the result.
pub proof fn law_first_bad_pointer_decides(
    ro: Window,
    rw: Window,
    point_addr: u64,
    scalar_addr: u64,
    result_addr: u64,
    base_cost: u64,
    byte_cost: u64,
    meter: ComputeMeter,
    vals_addr: u64,
    vals_len: u64,
)
    requires
        ro.is_valid(),
        rw.is_valid(),
    ensures
        match first_error(
            seq![
                pointer_error(ro, point_addr as int, 160, 8),
                pointer_error(ro, scalar_addr as int, 32, 1),
                pointer_error(rw, result_addr as int, 160, 8),
            ],
        ) {
            Some(e) => ristretto_operands(ro, rw, point_addr, scalar_addr, result_addr) == Err::<
                RistrettoOperandsView,
                EbpfError,
            >(e),
            None => ristretto_operands(ro, rw, point_addr, scalar_addr, result_addr) is Ok,
        },
        !meter.is_borrowed && base_cost <= meter.remaining && rw.holds(result_addr as int, 32)
            && vals_len > 0 && list_error(ro, vals_addr as int, vals_len as int, 16, 8) is Some
            ==> sha256_outcome(
            ro,
            rw,
            base_cost,
            byte_cost,
            meter,
            vals_addr,
            vals_len,
            result_addr,
        ) == (Outcome {
            result: Err(list_error(ro, vals_addr as int, vals_len as int, 16, 8)->0),
            meter: ComputeMeter { remaining: (meter.remaining - base_cost) as u64, ..meter },
            memory: rw.memory,
        }),
{
    ro.lemma_pointer_error(point_addr, 160, 8);
    ro.lemma_pointer_error(scalar_addr, 32, 1);
    rw.lemma_pointer_error(result_addr, 160, 8);
    rw.lemma_list_error(result_addr, 32, 1, 1);
    ro.lemma_list_error(vals_addr, vals_len, 16, 8);
    reveal_with_fuel(first_error, 4);
}

/// Law: the contents of operands are those of their fields.
pub proof fn law_contents_of_operands_are_those_of_the_fields(o: RistrettoOperands)
    ensures
        o@.point == o.point@,
        o@.scalar == o.scalar@,
        o@.result == o.result,
{
}

/// Law: values that are described can be hashed if the price of each is a number of the machine;
/// and so can any values once the meter, or the place of the result, refuses the hash.
pub proof fn law_described_values_can_be_hashed(
    ro: Window,
    rw: Window,
    base_cost: u64,
    byte_cost: u64,
    meter: ComputeMeter,
    vals_addr: u64,
    values: Seq<Seq<u8>>,
    result_addr: u64,
)
    requires
        ro.is_valid(),
        values.len() <= u64::MAX / 16,
        meter.is_borrowed || base_cost > meter.remaining || !rw.holds(result_addr as int, 32) || (
        ro.is_aligned(vals_addr as int, 8) && ro.shows_strings(vals_addr as int, values) && (forall|
            i: int,
        |
            0 <= i < values.len() ==> byte_cost * ((#[trigger] values[i]).len() as int / 2)
                <= u64::MAX)),
    ensures
        hash_prices_fit(
            ro,
            rw,
            base_cost,
            byte_cost,
            meter,
            vals_addr,
            values.len() as u64,
            result_addr,
        ),
{
    reveal(crate::memory::translated);
    if ro.is_aligned(vals_addr as int, 8) && ro.shows_strings(vals_addr as int, values) && (forall|
        i: int,
    |
        0 <= i < values.len() ==> byte_cost * ((#[trigger] values[i]).len() as int / 2)
            <= u64::MAX) {
        ro.lemma_described_lengths(vals_addr, values);
        let at = ro.values(vals_addr, values.len() as u64, 16, 8)->Ok_0 as int;
        assert forall|i: int|
            0 <= i < values.len() && #[trigger] ro.nth_byte_string(at, i) is Ok implies byte_cost
            * (
        ro.word(at + 16 * i + 8) / 2) <= u64::MAX by {
            assert(ro.word(at + 16 * i + 8) == values[i].len());
        }
    }
}

} // verus!
