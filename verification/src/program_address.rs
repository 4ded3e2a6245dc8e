//! Syscalls that derive addresses for a program.
use crate::context::{charge_result, charged, ComputeMeter};
use crate::error::{
    refused, rejected, EbpfError, InstructionError, PubkeyError, SyscallError,
};
use crate::guest::{
    changed_only_at, changed_within, list_error, pointer_error, read_byte_strings, view_result,
    window, Outcome, Window,
};
use crate::memory::law_write_is_local;
use crate::memory::{
    host_address, translate_slice, translate_type, written, HostMemory, MemoryRegion,
};
use crate::pubkey::{
    byte_strings, create_program_address, derived_address, derives, law_addresses_are_derived,
    program_address, Pubkey, MAX_SEEDS,
};
use vstd::prelude::*;

verus! {

/// Seeds, and the program that derives an address from them.
#[derive(Debug)]
pub struct ProgramAddressInputs {
    pub seeds: Vec<Vec<u8>>,
    pub program_id: Pubkey,
}

/// Contents of the inputs.
pub struct ProgramAddressInputsView {
    pub seeds: Seq<Seq<u8>>,
    pub program_id: Seq<u8>,
}

impl View for ProgramAddressInputs {
    type V = ProgramAddressInputsView;

    open spec fn view(&self) -> ProgramAddressInputsView {
        ProgramAddressInputsView {
            seeds: byte_strings(self.seeds@),
            program_id: self.program_id@,
        }
    }
}

/// What reading the inputs comes to.
pub open spec fn program_address_inputs(
    ro: Window,
    seeds_addr: u64,
    seeds_len: u64,
    program_id_addr: u64,
) -> Result<ProgramAddressInputsView, EbpfError> {
    match ro.values(seeds_addr, seeds_len, 16, 8) {
        Err(e) => Err(e),
        Ok(at) => if seeds_len > MAX_SEEDS {
            Err(refused(SyscallError::BadSeeds(PubkeyError::MaxSeedLengthExceeded)))
        } else {
            match ro.byte_strings(at as int, seeds_len as nat) {
                Err(e) => Err(e),
                Ok(seeds) => match ro.value(program_id_addr, 32, 1) {
                    Err(e) => Err(e),
                    Ok(program_id) => Ok(
                        ProgramAddressInputsView {
                            seeds,
                            program_id: ro.bytes(program_id as int, 32),
                        },
                    ),
                },
            }
        },
    }
}

/// Reads seeds, and the program that derives an address from them.
pub fn translate_program_address_inputs(
    seeds_addr: u64,
    seeds_len: u64,
    program_id_addr: u64,
    ro_regions: &[MemoryRegion],
    loader_id: &Pubkey,
    memory: &HostMemory,
) -> (r: Result<ProgramAddressInputs, EbpfError>)
    requires
        window(ro_regions, loader_id, memory).is_valid(),
    ensures
        view_result(r) == program_address_inputs(
            window(ro_regions, loader_id, memory),
            seeds_addr,
            seeds_len,
            program_id_addr,
        ),
{
    let at: u64 = translate_slice(seeds_addr, seeds_len, 16, 8, ro_regions, loader_id, memory)?;
    if seeds_len > MAX_SEEDS {
        return Err(EbpfError::from(SyscallError::BadSeeds(PubkeyError::MaxSeedLengthExceeded)));
    }
    let seeds = read_byte_strings(at, seeds_len, ro_regions, loader_id, memory)?;
    let program_id: u64 = translate_type(program_id_addr, 32, 1, ro_regions, loader_id, memory)?;
    Ok(ProgramAddressInputs { seeds, program_id: memory.read_pubkey(program_id) })
}

/// Create a program address
#[derive(Debug, Clone, Copy)]
pub struct SyscallCreateProgramAddress<'a> {
    pub cost: u64,
    pub loader_id: &'a Pubkey,
}

/// What deriving an address comes to. The price is asked before the seeds are read and again
/// before the address is derived. Seeds that give no address are answered by one.
pub open spec fn create_outcome(
    ro: Window,
    rw: Window,
    cost: u64,
    meter: ComputeMeter,
    seeds_addr: u64,
    seeds_len: u64,
    program_id_addr: u64,
    address_addr: u64,
) -> Outcome {
    let memory = rw.memory;
    let once = charged(meter, cost);
    let twice = charged(once, cost);
    match charge_result(meter, cost) {
        Err(e) => Outcome { result: Err(e), meter: once, memory },
        Ok(_) => match program_address_inputs(ro, seeds_addr, seeds_len, program_id_addr) {
            Err(e) => Outcome { result: Err(e), meter: once, memory },
            Ok(inputs) => match charge_result(once, cost) {
                Err(e) => Outcome { result: Err(e), meter: twice, memory },
                Ok(_) => match program_address(inputs.seeds, inputs.program_id) {
                    Err(_) => Outcome { result: Ok(1), meter: twice, memory },
                    Ok(address) => match rw.values(address_addr, 32, 1, 1) {
                        Err(e) => Outcome { result: Err(e), meter: twice, memory },
                        Ok(at) => Outcome {
                            result: Ok(0),
                            meter: twice,
                            memory: written(memory, at as int, address),
                        },
                    },
                },
            },
        },
    }
}

/// Writes an address that was derived to the program's memory. Seeds that gave none are answered
/// by one.
pub fn write_created_address(
    created: Result<Pubkey, PubkeyError>,
    address_addr: u64,
    rw_regions: &[MemoryRegion],
    loader_id: &Pubkey,
    memory: &mut HostMemory,
) -> (r: Result<u64, EbpfError>)
    requires
        window(rw_regions, loader_id, old(memory)).is_valid(),
    ensures
        match created {
            Err(_) => r == Ok::<u64, EbpfError>(1) && final(memory)@ == old(memory)@,
            Ok(address) => match window(rw_regions, loader_id, old(memory)).values(
                address_addr,
                32,
                1,
                1,
            ) {
                Err(e) => r == Err::<u64, EbpfError>(e) && final(memory)@ == old(memory)@,
                Ok(at) => r == Ok::<u64, EbpfError>(0) && final(memory)@ == written(
                    old(memory)@,
                    at as int,
                    address@,
                ),
            },
        },
        final(memory)@.len() == old(memory)@.len(),
{
    match created {
        Ok(new_address) => {
            let address: u64 = translate_slice(
                address_addr,
                32,
                1,
                1,
                rw_regions,
                loader_id,
                memory,
            )?;
            memory.write_bytes(address, new_address.bytes.as_slice());
            Ok(0)
        },
        Err(_) => Ok(1),
    }
}

impl<'a> SyscallCreateProgramAddress<'a> {
    /// Derives an address and writes it to the program's memory.
    pub fn call(
        &self,
        seeds_addr: u64,
        seeds_len: u64,
        program_id_addr: u64,
        address_addr: u64,
        _arg5: u64,
        ro_regions: &[MemoryRegion],
        rw_regions: &[MemoryRegion],
        memory: &mut HostMemory,
        compute_meter: &mut ComputeMeter,
    ) -> (r: Result<u64, EbpfError>)
        requires
            window(ro_regions, self.loader_id, old(memory)).is_valid(),
            window(rw_regions, self.loader_id, old(memory)).is_valid(),
        ensures
            (Outcome { result: r, meter: *final(compute_meter), memory: final(memory)@ })
                == create_outcome(
                window(ro_regions, self.loader_id, old(memory)),
                window(rw_regions, self.loader_id, old(memory)),
                self.cost,
                *old(compute_meter),
                seeds_addr,
                seeds_len,
                program_id_addr,
                address_addr,
            ),
            final(memory)@.len() == old(memory)@.len(),
    {
        compute_meter.consume(self.cost)?;
        let inputs = translate_program_address_inputs(
            seeds_addr,
            seeds_len,
            program_id_addr,
            ro_regions,
            self.loader_id,
            memory,
        )?;
        compute_meter.consume(self.cost)?;
        write_created_address(
            create_program_address(&inputs.seeds, &inputs.program_id),
            address_addr,
            rw_regions,
            self.loader_id,
            memory,
        )
    }
}

/// Find a program address
#[derive(Debug, Clone, Copy)]
pub struct SyscallTryFindProgramAddress<'a> {
    pub cost: u64,
    pub loader_id: &'a Pubkey,
}

/// What searching for an address comes to, from a bump seed down to one. Each try is paid for.
/// The first bump seed that gives an address is written, and then the address; one is answered
/// if none does.
pub open spec fn find_outcome(
    rw: Window,
    cost: u64,
    meter: ComputeMeter,
    inputs: ProgramAddressInputsView,
    address_addr: u64,
    bump_seed_addr: u64,
    bump: nat,
) -> Outcome
    decreases bump,
{
    let memory = rw.memory;
    let paid = charged(meter, cost);
    if bump == 0 {
        Outcome { result: Ok(1), meter, memory }
    } else {
        match charge_result(meter, cost) {
            Err(e) => Outcome { result: Err(e), meter: paid, memory },
            Ok(_) => match with_bump(inputs, bump) {
                Err(_) => find_outcome(
                    rw,
                    cost,
                    paid,
                    inputs,
                    address_addr,
                    bump_seed_addr,
                    (bump - 1) as nat,
                ),
                Ok(address) => match found_written(
                    rw,
                    bump as u8,
                    address,
                    address_addr,
                    bump_seed_addr,
                ) {
                    Err(e) => Outcome { result: Err(e), meter: paid, memory },
                    Ok(after) => Outcome { result: Ok(0), meter: paid, memory: after },
                },
            },
        }
    }
}

/// What deriving an address comes to with a bump seed behind the other seeds.
pub open spec fn with_bump(inputs: ProgramAddressInputsView, bump: nat) -> Result<
    Seq<u8>,
    PubkeyError,
> {
    program_address(inputs.seeds.push(seq![bump as u8]), inputs.program_id)
}

/// What a search for an address comes to.
pub open spec fn try_find_outcome(
    ro: Window,
    rw: Window,
    cost: u64,
    meter: ComputeMeter,
    seeds_addr: u64,
    seeds_len: u64,
    program_id_addr: u64,
    address_addr: u64,
    bump_seed_addr: u64,
) -> Outcome {
    match program_address_inputs(ro, seeds_addr, seeds_len, program_id_addr) {
        Err(e) => Outcome { result: Err(e), meter, memory: rw.memory },
        Ok(inputs) => find_outcome(rw, cost, meter, inputs, address_addr, bump_seed_addr, 255),
    }
}

/// What writing a bump seed and the address that it gives comes to.
pub open spec fn found_written(
    rw: Window,
    bump_seed: u8,
    address: Seq<u8>,
    address_addr: u64,
    bump_seed_addr: u64,
) -> Result<Seq<u8>, EbpfError> {
    match rw.value(bump_seed_addr, 1, 1) {
        Err(e) => Err(e),
        Ok(bump_at) => match rw.values(address_addr, 32, 1, 1) {
            Err(e) => Err(e),
            Ok(at) => Ok(
                written(written(rw.memory, bump_at as int, seq![bump_seed]), at as int, address),
            ),
        },
    }
}

/// Writes a bump seed, and the address that it gives, to the program's memory.
pub fn write_found_address(
    bump_seed: u8,
    new_address: &Pubkey,
    address_addr: u64,
    bump_seed_addr: u64,
    rw_regions: &[MemoryRegion],
    loader_id: &Pubkey,
    memory: &mut HostMemory,
) -> (r: Result<u64, EbpfError>)
    requires
        window(rw_regions, loader_id, old(memory)).is_valid(),
    ensures
        match found_written(
            window(rw_regions, loader_id, old(memory)),
            bump_seed,
            new_address@,
            address_addr,
            bump_seed_addr,
        ) {
            Err(e) => r == Err::<u64, EbpfError>(e) && final(memory)@ == old(memory)@,
            Ok(bytes) => r == Ok::<u64, EbpfError>(0) && final(memory)@ == bytes,
        },
        final(memory)@.len() == old(memory)@.len(),
{
    let bump_seed_ref: u64 = translate_type(bump_seed_addr, 1, 1, rw_regions, loader_id, memory)?;
    let address: u64 = translate_slice(address_addr, 32, 1, 1, rw_regions, loader_id, memory)?;
    memory.write_u8(bump_seed_ref, bump_seed);
    memory.write_bytes(address, new_address.bytes.as_slice());
    Ok(0)
}

impl<'a> SyscallTryFindProgramAddress<'a> {
    /// Searches for a bump seed with which an address can be derived, and writes both to the
    /// program's memory.
    pub fn call(
        &self,
        seeds_addr: u64,
        seeds_len: u64,
        program_id_addr: u64,
        address_addr: u64,
        bump_seed_addr: u64,
        ro_regions: &[MemoryRegion],
        rw_regions: &[MemoryRegion],
        memory: &mut HostMemory,
        compute_meter: &mut ComputeMeter,
    ) -> (r: Result<u64, EbpfError>)
        requires
            window(ro_regions, self.loader_id, old(memory)).is_valid(),
            window(rw_regions, self.loader_id, old(memory)).is_valid(),
        ensures
            (Outcome { result: r, meter: *final(compute_meter), memory: final(memory)@ })
                == try_find_outcome(
                window(ro_regions, self.loader_id, old(memory)),
                window(rw_regions, self.loader_id, old(memory)),
                self.cost,
                *old(compute_meter),
                seeds_addr,
                seeds_len,
                program_id_addr,
                address_addr,
                bump_seed_addr,
            ),
            final(memory)@.len() == old(memory)@.len(),
    {
        let ghost rw = window(rw_regions, self.loader_id, memory);
        let mut inputs = translate_program_address_inputs(
            seeds_addr,
            seeds_len,
            program_id_addr,
            ro_regions,
            self.loader_id,
            memory,
        )?;
        let ghost given = inputs@;
        let ghost sought = find_outcome(
            rw,
            self.cost,
            *compute_meter,
            given,
            address_addr,
            bump_seed_addr,
            255,
        );
        let mut bump_seed: u8 = 255;
        while bump_seed > 0
            invariant
                rw == window(rw_regions, self.loader_id, memory),
                rw.is_valid(),
                memory@ == old(memory)@,
                inputs@ == given,
                try_find_outcome(
                    window(ro_regions, self.loader_id, old(memory)),
                    rw,
                    self.cost,
                    *old(compute_meter),
                    seeds_addr,
                    seeds_len,
                    program_id_addr,
                    address_addr,
                    bump_seed_addr,
                ) == sought,
                sought == find_outcome(
                    rw,
                    self.cost,
                    *compute_meter,
                    given,
                    address_addr,
                    bump_seed_addr,
                    bump_seed as nat,
                ),
            decreases bump_seed,
        {
            let ghost before = inputs.seeds@;
            let bump: Vec<u8> = vec![bump_seed];
            inputs.seeds.push(bump);
            assert(bump@ =~= seq![bump_seed]);
            assert(byte_strings(inputs.seeds@) =~= given.seeds.push(seq![bump_seed]));
            compute_meter.consume(self.cost)?;
            if let Ok(new_address) = create_program_address(&inputs.seeds, &inputs.program_id) {
                return write_found_address(
                    bump_seed,
                    &new_address,
                    address_addr,
                    bump_seed_addr,
                    rw_regions,
                    self.loader_id,
                    memory,
                );
            }
            let _ = inputs.seeds.pop();
            assert(inputs.seeds@ =~= before);
            bump_seed = bump_seed - 1;
        }
        Ok(1)
    }
}

/// Law: a search that succeeds finds the greatest bump seed that gives an address, and writes
/// that bump seed and the address which the program derives with it.
pub proof fn law_found_bump_is_greatest(
    rw: Window,
    cost: u64,
    meter: ComputeMeter,
    inputs: ProgramAddressInputsView,
    address_addr: u64,
    bump_seed_addr: u64,
    from: nat,
) -> (bump: nat)
    requires
        from <= 255,
        find_outcome(rw, cost, meter, inputs, address_addr, bump_seed_addr, from).result == Ok::<
            u64,
            EbpfError,
        >(0),
    ensures
        1 <= bump <= from,
        with_bump(inputs, bump) is Ok,
        forall|b: nat| bump < b <= from ==> #[trigger] with_bump(inputs, b) is Err,
        found_written(
            rw,
            bump as u8,
            with_bump(inputs, bump)->Ok_0,
            address_addr,
            bump_seed_addr,
        ) == Ok::<_, EbpfError>(
            find_outcome(rw, cost, meter, inputs, address_addr, bump_seed_addr, from).memory,
        ),
    decreases from,
{
    if with_bump(inputs, from) is Ok {
        from
    } else {
        law_found_bump_is_greatest(
            rw,
            cost,
            charged(meter, cost),
            inputs,
            address_addr,
            bump_seed_addr,
            (from - 1) as nat,
        )
    }
}

/// Law: a program that derives an address from the seeds of a search, and the bump seed that was
/// found behind them, gets the address that was found.
pub proof fn law_found_address_is_derived_again(
    rw: Window,
    cost: u64,
    meter: ComputeMeter,
    inputs: ProgramAddressInputsView,
    address_addr: u64,
    bump_seed_addr: u64,
    again_ro: Window,
    again_rw: Window,
    again_meter: ComputeMeter,
    seeds_addr: u64,
    seeds_len: u64,
    program_id_addr: u64,
    again_addr: u64,
) -> (bump: nat)
    requires
        find_outcome(rw, cost, meter, inputs, address_addr, bump_seed_addr, 255).result == Ok::<
            u64,
            EbpfError,
        >(0),
    ensures
        1 <= bump <= 255,
        found_written(
            rw,
            bump as u8,
            with_bump(inputs, bump)->Ok_0,
            address_addr,
            bump_seed_addr,
        ) == Ok::<_, EbpfError>(
            find_outcome(rw, cost, meter, inputs, address_addr, bump_seed_addr, 255).memory,
        ),
        program_address_inputs(again_ro, seeds_addr, seeds_len, program_id_addr) == Ok::<
            _,
            EbpfError,
        >(
            (ProgramAddressInputsView {
                seeds: inputs.seeds.push(seq![bump as u8]),
                program_id: inputs.program_id,
            }),
        ) && 2 * cost <= again_meter.remaining && !again_meter.is_borrowed && again_rw.values(
            again_addr,
            32,
            1,
            1,
        ) is Ok ==> ({
            let again = create_outcome(
                again_ro,
                again_rw,
                cost,
                again_meter,
                seeds_addr,
                seeds_len,
                program_id_addr,
                again_addr,
            );
            &&& again.result == Ok::<u64, EbpfError>(0)
            &&& again.memory == written(
                again_rw.memory,
                again_rw.values(again_addr, 32, 1, 1)->Ok_0 as int,
                with_bump(inputs, bump)->Ok_0,
            )
        }),
{
    law_found_bump_is_greatest(rw, cost, meter, inputs, address_addr, bump_seed_addr, 255)
}

/// Law: a search gives up only where no bump seed gives an address.
pub proof fn law_search_is_complete(
    rw: Window,
    cost: u64,
    meter: ComputeMeter,
    inputs: ProgramAddressInputsView,
    address_addr: u64,
    bump_seed_addr: u64,
    from: nat,
)
    requires
        find_outcome(rw, cost, meter, inputs, address_addr, bump_seed_addr, from).result == Ok::<
            u64,
            EbpfError,
        >(1),
    ensures
        forall|b: nat| 1 <= b <= from ==> #[trigger] with_bump(inputs, b) is Err,
    decreases from,
{
    if from > 0 {
        law_search_is_complete(
            rw,
            cost,
            charged(meter, cost),
            inputs,
            address_addr,
            bump_seed_addr,
            (from - 1) as nat,
        );
    }
}

/// Law: deriving an address changes the program's memory only where the program may write, and
/// only if it succeeds. It never adds compute units.
pub proof fn law_create_is_contained(
    ro: Window,
    rw: Window,
    cost: u64,
    meter: ComputeMeter,
    seeds_addr: u64,
    seeds_len: u64,
    program_id_addr: u64,
    address_addr: u64,
)
    requires
        rw.is_valid(),
    ensures
        ({
            let outcome = create_outcome(
                ro,
                rw,
                cost,
                meter,
                seeds_addr,
                seeds_len,
                program_id_addr,
                address_addr,
            );
            &&& changed_within(rw, rw.memory, outcome.memory)
            &&& outcome.result != Ok::<u64, EbpfError>(0) ==> outcome.memory == rw.memory
            &&& outcome.meter.remaining <= meter.remaining
        }),
{
    if let Ok(inputs) = program_address_inputs(ro, seeds_addr, seeds_len, program_id_addr) {
        if let Ok(address) = program_address(inputs.seeds, inputs.program_id) {
            if rw.values(address_addr, 32, 1, 1) is Ok {
                rw.lemma_write_is_within(address_addr, address);
            }
        }
    }
}

/// Trying bump seeds changes the memory only where the program may write, and only at the end.
proof fn lemma_find_is_contained(
    rw: Window,
    cost: u64,
    meter: ComputeMeter,
    inputs: ProgramAddressInputsView,
    address_addr: u64,
    bump_seed_addr: u64,
    bump: nat,
)
    requires
        rw.is_valid(),
    ensures
        ({
            let outcome = find_outcome(
                rw,
                cost,
                meter,
                inputs,
                address_addr,
                bump_seed_addr,
                bump,
            );
            &&& changed_within(rw, rw.memory, outcome.memory)
            &&& outcome.result != Ok::<u64, EbpfError>(0) ==> outcome.memory == rw.memory
            &&& outcome.meter.remaining <= meter.remaining
        }),
    decreases bump,
{
    if bump > 0 {
        if let Ok(address) = with_bump(inputs, bump) {
            if let Ok(bump_at) = rw.value(bump_seed_addr, 1, 1) {
                rw.lemma_value_is_reached(bump_seed_addr, 1, 1);
                law_write_is_local(rw.memory, bump_at as int, seq![bump as u8]);
                let between = Window {
                    memory: written(rw.memory, bump_at as int, seq![bump as u8]),
                    ..rw
                };
                if between.values(address_addr, 32, 1, 1) is Ok {
                    between.lemma_write_is_within(address_addr, address);
                }
            }
        } else {
            lemma_find_is_contained(
                rw,
                cost,
                charged(meter, cost),
                inputs,
                address_addr,
                bump_seed_addr,
                (bump - 1) as nat,
            );
        }
    }
}

/// Law: a search for an address changes the program's memory only where the program may write,
/// and only if it succeeds. It never adds compute units.
pub proof fn law_find_is_contained(
    ro: Window,
    rw: Window,
    cost: u64,
    meter: ComputeMeter,
    seeds_addr: u64,
    seeds_len: u64,
    program_id_addr: u64,
    address_addr: u64,
    bump_seed_addr: u64,
)
    requires
        rw.is_valid(),
    ensures
        ({
            let outcome = try_find_outcome(
                ro,
                rw,
                cost,
                meter,
                seeds_addr,
                seeds_len,
                program_id_addr,
                address_addr,
                bump_seed_addr,
            );
            &&& changed_within(rw, rw.memory, outcome.memory)
            &&& outcome.result != Ok::<u64, EbpfError>(0) ==> outcome.memory == rw.memory
            &&& outcome.meter.remaining <= meter.remaining
        }),
{
    if let Ok(inputs) = program_address_inputs(ro, seeds_addr, seeds_len, program_id_addr) {
        lemma_find_is_contained(rw, cost, meter, inputs, address_addr, bump_seed_addr, 255);
    }
}

/// Whether a program describes seeds, and the address of the program that derives from them, at
/// virtual addresses that it may read.
pub open spec fn shows_inputs(
    ro: Window,
    seeds_addr: u64,
    seeds: Seq<Seq<u8>>,
    program_id_addr: u64,
    program_id: Seq<u8>,
) -> bool {
    &&& ro.is_aligned(seeds_addr as int, 8)
    &&& ro.shows_strings(seeds_addr as int, seeds)
    &&& program_id.len() == 32
    &&& ro.shows(program_id_addr as int, program_id)
}

/// Seeds that are described are read as they are.
proof fn lemma_described_inputs(
    ro: Window,
    seeds_addr: u64,
    seeds: Seq<Seq<u8>>,
    program_id_addr: u64,
    program_id: Seq<u8>,
)
    requires
        ro.is_valid(),
        seeds.len() <= u64::MAX / 16,
        shows_inputs(ro, seeds_addr, seeds, program_id_addr, program_id),
    ensures
        seeds.len() <= 16 ==> program_address_inputs(
            ro,
            seeds_addr,
            seeds.len() as u64,
            program_id_addr,
        ) == Ok::<_, EbpfError>(ProgramAddressInputsView { seeds, program_id }),
        seeds.len() > 16 ==> program_address_inputs(
            ro,
            seeds_addr,
            seeds.len() as u64,
            program_id_addr,
        ) == Err::<ProgramAddressInputsView, EbpfError>(
            refused(SyscallError::BadSeeds(PubkeyError::MaxSeedLengthExceeded)),
        ),
{
    ro.law_described_strings_are_read(seeds_addr, seeds);
    ro.lemma_shown_value(program_id_addr, program_id, 1);
}

/// Law: seeds, and the program that derives from them, are read if and only if they are described
/// where the program may read, and there are at most sixteen seeds.
pub proof fn law_inputs_are_read_where_described(
    ro: Window,
    seeds_addr: u64,
    seeds_len: u64,
    program_id_addr: u64,
    inputs: ProgramAddressInputsView,
)
    requires
        ro.is_valid(),
    ensures
        program_address_inputs(ro, seeds_addr, seeds_len, program_id_addr) == Ok::<_, EbpfError>(
            inputs,
        ) <==> inputs.seeds.len() == seeds_len && seeds_len <= 16 && shows_inputs(
            ro,
            seeds_addr,
            inputs.seeds,
            program_id_addr,
            inputs.program_id,
        ),
{
    ro.law_strings_are_read_where_described(seeds_addr, seeds_len, inputs.seeds);
    if inputs.program_id.len() == 32 && ro.shows(program_id_addr as int, inputs.program_id) {
        ro.lemma_shown_value(program_id_addr, inputs.program_id, 1);
    }
    if program_address_inputs(ro, seeds_addr, seeds_len, program_id_addr) == Ok::<_, EbpfError>(
        inputs,
    ) {
        ro.lemma_read_is_shown(program_id_addr, 32);
    }
}

/// Law: deriving an address, and searching for one, changes nothing and succeeds nowhere where the
/// seeds and the program are not described where the program may read, whatever stands elsewhere.
pub proof fn law_undescribed_seeds_give_no_address(
    ro: Window,
    rw: Window,
    cost: u64,
    meter: ComputeMeter,
    seeds_addr: u64,
    seeds_len: u64,
    program_id_addr: u64,
    address_addr: u64,
    bump_seed_addr: u64,
)
    requires
        ro.is_valid(),
        seeds_len > 16 || forall|seeds: Seq<Seq<u8>>, program_id: Seq<u8>|
            seeds.len() == seeds_len ==> !(#[trigger] shows_inputs(
                ro,
                seeds_addr,
                seeds,
                program_id_addr,
                program_id,
            )),
    ensures
        ({
            let created = create_outcome(
                ro,
                rw,
                cost,
                meter,
                seeds_addr,
                seeds_len,
                program_id_addr,
                address_addr,
            );
            let found = try_find_outcome(
                ro,
                rw,
                cost,
                meter,
                seeds_addr,
                seeds_len,
                program_id_addr,
                address_addr,
                bump_seed_addr,
            );
            &&& created.result is Err && created.memory == rw.memory
            &&& found.result is Err && found.memory == rw.memory && found.meter == meter
        }),
{
    if let Ok(inputs) = program_address_inputs(ro, seeds_addr, seeds_len, program_id_addr) {
        law_inputs_are_read_where_described(ro, seeds_addr, seeds_len, program_id_addr, inputs);
    }
}

/// Law: an address that was derived, or found, but cannot be written where it was asked for is a
/// violation of the access, and nothing is written.
pub proof fn law_unwritable_addresses_are_violations(
    ro: Window,
    rw: Window,
    cost: u64,
    meter: ComputeMeter,
    seeds_addr: u64,
    seeds: Seq<Seq<u8>>,
    program_id_addr: u64,
    program_id: Seq<u8>,
    address_addr: u64,
    bump_seed_addr: u64,
)
    requires
        ro.is_valid(),
        shows_inputs(ro, seeds_addr, seeds, program_id_addr, program_id),
        seeds.len() <= 16,
        !meter.is_borrowed,
    ensures
        derives(seeds, program_id) && 2 * cost <= meter.remaining && !rw.holds(
            address_addr as int,
            32,
        ) ==> ({
            let outcome = create_outcome(
                ro,
                rw,
                cost,
                meter,
                seeds_addr,
                seeds.len() as u64,
                program_id_addr,
                address_addr,
            );
            &&& outcome.result == Err::<u64, EbpfError>(
                EbpfError::AccessViolation(address_addr, 32),
            )
            &&& outcome.memory == rw.memory
        }),
        derives(seeds.push(seq![255u8]), program_id) && cost <= meter.remaining && (!rw.holds(
            bump_seed_addr as int,
            1,
        ) || !rw.holds(address_addr as int, 32)) ==> ({
            let outcome = try_find_outcome(
                ro,
                rw,
                cost,
                meter,
                seeds_addr,
                seeds.len() as u64,
                program_id_addr,
                address_addr,
                bump_seed_addr,
            );
            &&& outcome.result == Err::<u64, EbpfError>(
                if !rw.holds(bump_seed_addr as int, 1) {
                    EbpfError::AccessViolation(bump_seed_addr, 1)
                } else {
                    EbpfError::AccessViolation(address_addr, 32)
                },
            )
            &&& outcome.memory == rw.memory
        }),
{
    reveal(crate::memory::translated);
    lemma_described_inputs(ro, seeds_addr, seeds, program_id_addr, program_id);
    law_addresses_are_derived(seeds, program_id);
    law_addresses_are_derived(seeds.push(seq![255u8]), program_id);
    let inputs = ProgramAddressInputsView { seeds, program_id };
    assert(with_bump(inputs, 255) == program_address(seeds.push(seq![255u8]), program_id));
}

/// Law: a program that describes seeds and a program at addresses that it may read, wherever else
/// it may write, and that pays twice the price, gets the address that the program derives from the
/// seeds at the address that it asked for, and nothing else changes. Seeds from which none is
/// derived are answered by one, and change nothing.
pub proof fn law_created_address_is_the_one_of_the_seeds(
    ro: Window,
    rw: Window,
    cost: u64,
    meter: ComputeMeter,
    seeds_addr: u64,
    seeds: Seq<Seq<u8>>,
    program_id_addr: u64,
    program_id: Seq<u8>,
    address_addr: u64,
)
    requires
        ro.is_valid(),
        rw.is_valid(),
        shows_inputs(ro, seeds_addr, seeds, program_id_addr, program_id),
        seeds.len() <= 16,
        !meter.is_borrowed,
        2 * cost <= meter.remaining,
        rw.holds(address_addr as int, 32),
    ensures
        ({
            let outcome = create_outcome(
                ro,
                rw,
                cost,
                meter,
                seeds_addr,
                seeds.len() as u64,
                program_id_addr,
                address_addr,
            );
            &&& outcome.meter.remaining == meter.remaining - 2 * cost
            &&& !outcome.meter.is_borrowed
            &&& derives(seeds, program_id) ==> {
                &&& outcome.result == Ok::<u64, EbpfError>(0)
                &&& rw.with_memory(outcome.memory).shows(
                    address_addr as int,
                    derived_address(seeds, program_id)->0@,
                )
                &&& changed_only_at(rw, address_addr as int, 32, outcome.memory)
            }
            &&& !derives(seeds, program_id) ==> outcome.result == Ok::<u64, EbpfError>(1)
                && outcome.memory == rw.memory
        }),
{
    lemma_described_inputs(ro, seeds_addr, seeds, program_id_addr, program_id);
    law_addresses_are_derived(seeds, program_id);
    if derives(seeds, program_id) {
        let address = derived_address(seeds, program_id)->0@;
        rw.lemma_written_is_shown(address_addr, address);
        law_write_is_local(rw.memory, rw.span(address_addr, 32)->Ok_0 as int, address);
    }
}

/// Law: deriving an address is refused where the meter is borrowed, where the price cannot be paid
/// before the seeds are read, where there are too many seeds, and where the price cannot be paid
/// again. What is left is then taken, and nothing is written.
pub proof fn law_unpaid_addresses_are_not_created(
    ro: Window,
    rw: Window,
    cost: u64,
    meter: ComputeMeter,
    seeds_addr: u64,
    seeds: Seq<Seq<u8>>,
    program_id_addr: u64,
    program_id: Seq<u8>,
    address_addr: u64,
)
    requires
        ro.is_valid(),
        seeds.len() <= u64::MAX / 16,
        shows_inputs(ro, seeds_addr, seeds, program_id_addr, program_id),
        meter.is_borrowed || 2 * cost > meter.remaining || seeds.len() > 16,
    ensures
        ({
            let outcome = create_outcome(
                ro,
                rw,
                cost,
                meter,
                seeds_addr,
                seeds.len() as u64,
                program_id_addr,
                address_addr,
            );
            &&& outcome.memory == rw.memory
            &&& meter.is_borrowed ==> outcome.result == Err::<u64, EbpfError>(
                refused(SyscallError::InvokeContextBorrowFailed),
            ) && outcome.meter == meter
            &&& !meter.is_borrowed && cost > meter.remaining ==> outcome.result == Err::<
                u64,
                EbpfError,
            >(rejected(InstructionError::ComputationalBudgetExceeded)) && outcome.meter.remaining
                == 0
            &&& !meter.is_borrowed && cost <= meter.remaining && seeds.len() > 16 ==> outcome.result
                == Err::<u64, EbpfError>(
                refused(SyscallError::BadSeeds(PubkeyError::MaxSeedLengthExceeded)),
            ) && outcome.meter.remaining == meter.remaining - cost
            &&& !meter.is_borrowed && cost <= meter.remaining < 2 * cost && seeds.len() <= 16
                ==> outcome.result == Err::<u64, EbpfError>(
                rejected(InstructionError::ComputationalBudgetExceeded),
            ) && outcome.meter.remaining == 0
        }),
{
    lemma_described_inputs(ro, seeds_addr, seeds, program_id_addr, program_id);
}

/// A search tries bump seeds downwards, and pays for each.
proof fn lemma_search(
    rw: Window,
    cost: u64,
    meter: ComputeMeter,
    inputs: ProgramAddressInputsView,
    address_addr: u64,
    bump_seed_addr: u64,
    from: nat,
    bump: nat,
)
    requires
        bump <= from <= 255,
        !meter.is_borrowed,
        forall|b: nat| bump < b <= from ==> #[trigger] with_bump(inputs, b) is Err,
    ensures
        ({
            let outcome = find_outcome(
                rw,
                cost,
                meter,
                inputs,
                address_addr,
                bump_seed_addr,
                from,
            );
            let paid = (from - bump + 1) * cost;
            let tried = (from - bump) * cost;
            &&& bump == 0 && tried <= meter.remaining ==> outcome == (Outcome {
                result: Ok(1),
                meter: ComputeMeter { remaining: (meter.remaining - tried) as u64, ..meter },
                memory: rw.memory,
            })
            &&& bump == 0 && tried > meter.remaining ==> outcome == (Outcome {
                result: Err(rejected(InstructionError::ComputationalBudgetExceeded)),
                meter: ComputeMeter { remaining: 0, ..meter },
                memory: rw.memory,
            })
            &&& bump > 0 && paid > meter.remaining ==> outcome == (Outcome {
                result: Err(rejected(InstructionError::ComputationalBudgetExceeded)),
                meter: ComputeMeter { remaining: 0, ..meter },
                memory: rw.memory,
            })
            &&& bump > 0 && paid <= meter.remaining && with_bump(inputs, bump) is Ok ==> outcome
                == {
                let left = ComputeMeter { remaining: (meter.remaining - paid) as u64, ..meter };
                match found_written(
                    rw,
                    bump as u8,
                    with_bump(inputs, bump)->Ok_0,
                    address_addr,
                    bump_seed_addr,
                ) {
                    Err(e) => Outcome { result: Err(e), meter: left, memory: rw.memory },
                    Ok(after) => Outcome { result: Ok(0), meter: left, memory: after },
                }
            }
        }),
    decreases from,
{
    if from > bump {
        assert(with_bump(inputs, from) is Err);
        if cost <= meter.remaining {
            lemma_search(
                rw,
                cost,
                charged(meter, cost),
                inputs,
                address_addr,
                bump_seed_addr,
                (from - 1) as nat,
                bump,
            );
        }
        assert((from - bump + 1) * cost == (from - bump) * cost + cost) by (nonlinear_arith);
        assert((from - bump) * cost == (from - 1 - bump) * cost + cost) by (nonlinear_arith);
        assert((from - 1 - bump + 1) * cost == (from - bump) * cost) by (nonlinear_arith);
        assert((from - 1 - bump) * cost >= 0) by (nonlinear_arith)
            requires
                from > bump,
                cost >= 0,
        ;
    } else {
        assert((from - bump) * cost == 0) by (nonlinear_arith)
            requires
                from == bump,
        ;
        assert((from - bump + 1) * cost == cost) by (nonlinear_arith)
            requires
                from == bump,
        ;
    }
}

/// Law: a search finds the greatest bump seed from which, behind the seeds that stand where the
/// program may read, an address is derived. It writes the bump seed and the address where the
/// program asked for them, and is paid once for each bump seed from 255 down to the one that it
/// found. A program that cannot pay for that gets nothing.
pub proof fn law_search_finds_the_greatest_bump_seed(
    ro: Window,
    rw: Window,
    cost: u64,
    meter: ComputeMeter,
    seeds_addr: u64,
    seeds: Seq<Seq<u8>>,
    program_id_addr: u64,
    program_id: Seq<u8>,
    address_addr: u64,
    bump_seed_addr: u64,
    bump: u8,
)
    requires
        ro.is_valid(),
        rw.is_valid(),
        shows_inputs(ro, seeds_addr, seeds, program_id_addr, program_id),
        seeds.len() <= 16,
        !meter.is_borrowed,
        rw.holds(address_addr as int, 32),
        rw.holds(bump_seed_addr as int, 1),
        bump >= 1,
        derives(seeds.push(seq![bump]), program_id),
        forall|b: u8| b > bump ==> !derives(seeds.push(#[trigger] seq![b]), program_id),
    ensures
        ({
            let outcome = try_find_outcome(
                ro,
                rw,
                cost,
                meter,
                seeds_addr,
                seeds.len() as u64,
                program_id_addr,
                address_addr,
                bump_seed_addr,
            );
            let price = (256 - bump) * cost;
            let address_at = host_address(rw.regions, address_addr as int, 32)->0;
            let bump_at = host_address(rw.regions, bump_seed_addr as int, 1)->0;
            &&& price <= meter.remaining ==> {
                &&& outcome.result == Ok::<u64, EbpfError>(0)
                &&& outcome.meter.remaining == meter.remaining - price
                &&& rw.with_memory(outcome.memory).shows(
                    address_addr as int,
                    derived_address(seeds.push(seq![bump]), program_id)->0@,
                )
                &&& !(address_at <= bump_at < address_at + 32) ==> rw.with_memory(
                    outcome.memory,
                ).shows(bump_seed_addr as int, seq![bump])
                &&& outcome.memory.len() == rw.memory.len()
                &&& forall|host: int|
                    0 <= host < rw.memory.len() && host != bump_at && !(address_at <= host
                        < address_at + 32) ==> #[trigger] outcome.memory[host] == rw.memory[host]
            }
            &&& price > meter.remaining ==> outcome == (Outcome {
                result: Err(rejected(InstructionError::ComputationalBudgetExceeded)),
                meter: ComputeMeter { remaining: 0, ..meter },
                memory: rw.memory,
            })
        }),
{
    let inputs = ProgramAddressInputsView { seeds, program_id };
    let address = derived_address(seeds.push(seq![bump]), program_id)->0@;
    lemma_described_inputs(ro, seeds_addr, seeds, program_id_addr, program_id);
    law_addresses_are_derived(seeds.push(seq![bump]), program_id);
    assert forall|b: nat| bump < b <= 255 implies #[trigger] with_bump(inputs, b) is Err by {
        assert(!derives(seeds.push(seq![b as u8]), program_id));
        law_addresses_are_derived(seeds.push(seq![b as u8]), program_id);
    }
    assert(bump as nat as u8 == bump);
    lemma_search(
        rw,
        cost,
        meter,
        inputs,
        address_addr,
        bump_seed_addr,
        255,
        bump as nat,
    );
    assert((255 - bump + 1) * cost == (256 - bump) * cost) by (nonlinear_arith);
    rw.lemma_written_is_shown(bump_seed_addr, seq![bump]);
    let bump_at = rw.span(bump_seed_addr, 1)->Ok_0 as int;
    let between = rw.with_memory(written(rw.memory, bump_at, seq![bump]));
    law_write_is_local(rw.memory, bump_at, seq![bump]);
    between.lemma_written_is_shown(address_addr, address);
    let address_at = rw.span(address_addr, 32)->Ok_0 as int;
    law_write_is_local(between.memory, address_at, address);
}

/// Law: a search without result has tried and paid for all bump seeds, and is answered by one; one
/// that cannot be paid is refused. Nothing is written.
pub proof fn law_search_without_result_writes_nothing(
    ro: Window,
    rw: Window,
    cost: u64,
    meter: ComputeMeter,
    seeds_addr: u64,
    seeds: Seq<Seq<u8>>,
    program_id_addr: u64,
    program_id: Seq<u8>,
    address_addr: u64,
    bump_seed_addr: u64,
)
    requires
        ro.is_valid(),
        shows_inputs(ro, seeds_addr, seeds, program_id_addr, program_id),
        seeds.len() <= 16,
        !meter.is_borrowed,
        forall|b: u8| b >= 1 ==> !derives(seeds.push(#[trigger] seq![b]), program_id),
    ensures
        ({
            let outcome = try_find_outcome(
                ro,
                rw,
                cost,
                meter,
                seeds_addr,
                seeds.len() as u64,
                program_id_addr,
                address_addr,
                bump_seed_addr,
            );
            &&& outcome.memory == rw.memory
            &&& 255 * cost <= meter.remaining ==> outcome.result == Ok::<u64, EbpfError>(1)
                && outcome.meter.remaining == meter.remaining - 255 * cost
            &&& 255 * cost > meter.remaining ==> outcome.result == Err::<u64, EbpfError>(
                rejected(InstructionError::ComputationalBudgetExceeded),
            ) && outcome.meter.remaining == 0
        }),
{
    let inputs = ProgramAddressInputsView { seeds, program_id };
    lemma_described_inputs(ro, seeds_addr, seeds, program_id_addr, program_id);
    assert forall|b: nat| 0 < b <= 255 implies #[trigger] with_bump(inputs, b) is Err by {
        assert(!derives(seeds.push(seq![b as u8]), program_id));
        law_addresses_are_derived(seeds.push(seq![b as u8]), program_id);
    }
    lemma_search(rw, cost, meter, inputs, address_addr, bump_seed_addr, 255, 0);
}

/// Law: a search with too many seeds is refused before anything is paid, and so is one whose seeds
/// cannot be read where the program may read.
pub proof fn law_search_reads_its_seeds_first(
    ro: Window,
    rw: Window,
    cost: u64,
    meter: ComputeMeter,
    seeds_addr: u64,
    seeds_len: u64,
    program_id_addr: u64,
    address_addr: u64,
    bump_seed_addr: u64,
)
    requires
        ro.is_valid(),
        ro.is_aligned(seeds_addr as int, 8),
        seeds_len > 0,
    ensures
        ({
            let outcome = try_find_outcome(
                ro,
                rw,
                cost,
                meter,
                seeds_addr,
                seeds_len,
                program_id_addr,
                address_addr,
                bump_seed_addr,
            );
            let can_read = ro.holds(seeds_addr as int, 16 * seeds_len);
            &&& !can_read ==> outcome.result is Err && outcome.result->Err_0 is AccessViolation
            &&& can_read && seeds_len > 16 ==> outcome.result == Err::<u64, EbpfError>(
                refused(SyscallError::BadSeeds(PubkeyError::MaxSeedLengthExceeded)),
            )
            &&& !can_read || seeds_len > 16 ==> outcome.meter == meter && outcome.memory
                == rw.memory
        }),
{
    reveal(crate::memory::translated);
    crate::memory::lemma_host_address_in_memory(
        ro.regions,
        seeds_addr as int,
        16 * seeds_len,
        ro.memory.len() as int,
    );
    crate::memory::lemma_host_address_in_memory(
        ro.regions,
        seeds_addr as int,
        u64::MAX as int,
        ro.memory.len() as int,
    );
}

/// Law: of what is read before an address is derived the first that is refused decides: the list of
/// seeds, their number, a seed, and the program. A search is then refused before anything is paid.
pub proof fn law_first_bad_input_decides(
    ro: Window,
    rw: Window,
    cost: u64,
    meter: ComputeMeter,
    seeds_addr: u64,
    seeds_len: u64,
    program_id_addr: u64,
    address_addr: u64,
    bump_seed_addr: u64,
)
    requires
        ro.is_valid(),
        !meter.is_borrowed,
        cost <= meter.remaining,
    ensures
        ({
            let created = create_outcome(
                ro,
                rw,
                cost,
                meter,
                seeds_addr,
                seeds_len,
                program_id_addr,
                address_addr,
            );
            let found = try_find_outcome(
                ro,
                rw,
                cost,
                meter,
                seeds_addr,
                seeds_len,
                program_id_addr,
                address_addr,
                bump_seed_addr,
            );
            let list = list_error(ro, seeds_addr as int, seeds_len as int, 16, 8);
            let strings = ro.byte_strings(
                ro.values(seeds_addr, seeds_len, 16, 8)->Ok_0 as int,
                seeds_len as nat,
            );
            let program = pointer_error(ro, program_id_addr as int, 32, 1);
            let too_many = EbpfError::UserError(
                crate::error::BPFError::SyscallError(
                    SyscallError::BadSeeds(PubkeyError::MaxSeedLengthExceeded),
                ),
            );
            let error = if list is Some {
                list
            } else if seeds_len > 16 {
                Some(too_many)
            } else if strings is Err {
                Some(strings->Err_0)
            } else {
                program
            };
            error is Some ==> {
                &&& created.result == Err::<u64, EbpfError>(error->0)
                &&& created.meter.remaining == meter.remaining - cost
                &&& created.memory == rw.memory
                &&& found == (Outcome { result: Err(error->0), meter, memory: rw.memory })
            }
        }),
{
    ro.lemma_list_error(seeds_addr, seeds_len, 16, 8);
    ro.lemma_pointer_error(program_id_addr, 32, 1);
}

/// Law: the contents of inputs are those of their fields.
pub proof fn law_contents_of_inputs_are_those_of_the_fields(inputs: ProgramAddressInputs)
    ensures
        inputs@.program_id == inputs.program_id.bytes@,
        inputs@.seeds.len() == inputs.seeds@.len(),
        forall|i: int|
            0 <= i < inputs.seeds@.len() ==> #[trigger] inputs@.seeds[i] == inputs.seeds@[i]@,
{
}

} // verus!
