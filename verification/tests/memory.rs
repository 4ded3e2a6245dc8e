use bpf_syscalls::error::{BPFError, EbpfError, SyscallError};
use bpf_syscalls::guest::{read_byte_string, read_byte_strings, translate_string};
use bpf_syscalls::memory::{
    regions_are_valid, translate, translate_slice, translate_type, HostMemory, MemoryRegion,
};
use bpf_syscalls::pubkey::{Pubkey, BPF_LOADER_DEPRECATED_ID, BPF_LOADER_ID};

fn aligned_loader() -> Pubkey {
    Pubkey { bytes: BPF_LOADER_ID }
}

fn unaligned_loader() -> Pubkey {
    Pubkey { bytes: BPF_LOADER_DEPRECATED_ID }
}

fn unaligned() -> EbpfError {
    EbpfError::UserError(BPFError::SyscallError(SyscallError::UnalignedPointer))
}

fn numbered(n: usize) -> HostMemory {
    HostMemory { bytes: (0..n).map(|i| i as u8).collect() }
}

#[test]
fn translation_agrees_with_the_virtual_machine() {
    let memory = numbered(250);
    let regions = [
        MemoryRegion::new(0, 100, 50),
        MemoryRegion::new(50, 150, 30),
        MemoryRegion::new(100, 400, 100),
        MemoryRegion::new(200, 450, 50),
    ];
    assert!(regions_are_valid(&regions, &memory));
    let outside: Vec<solana_rbpf::memory_region::MemoryRegion> = regions
        .iter()
        .map(|r| solana_rbpf::memory_region::MemoryRegion {
            addr_host: r.addr_host,
            addr_vm: r.addr_vm,
            len: r.len,
        })
        .collect();
    for vm_addr in 90..520 {
        for len in [0, 1, 2, 30, 50, 51, 100, 101, u64::MAX] {
            let expected = solana_rbpf::memory_region::translate_addr::<
                solana_rbpf::user_error::UserError,
            >(vm_addr, len as usize, "", 0, &outside)
            .ok();
            let got = translate(vm_addr, len, &regions, &memory);
            match expected {
                Some(host) => assert_eq!(got, Ok(host)),
                None => assert_eq!(got, Err(EbpfError::AccessViolation(vm_addr, len))),
            }
        }
    }
}

#[test]
fn an_access_stays_in_one_region() {
    let memory = numbered(40);
    // The regions are neighbours, but no access crosses from one to the other.
    let regions = [MemoryRegion::new(0, 100, 20), MemoryRegion::new(20, 120, 20)];
    assert_eq!(translate(110, 10, &regions, &memory), Ok(10));
    assert_eq!(translate(119, 2, &regions, &memory), Err(EbpfError::AccessViolation(119, 2)));
    assert_eq!(translate(120, 20, &regions, &memory), Ok(20));
    assert_eq!(translate(99, 1, &regions, &memory), Err(EbpfError::AccessViolation(99, 1)));
    assert_eq!(translate(99, 1, &[], &memory), Err(EbpfError::AccessViolation(99, 1)));
}

#[test]
fn regions_must_ascend_and_lie_in_memory() {
    let memory = numbered(40);
    assert!(regions_are_valid(&[], &memory));
    assert!(regions_are_valid(
        &[MemoryRegion::new(0, 0, 40), MemoryRegion::new(0, 1, 40)],
        &memory
    ));
    assert!(!regions_are_valid(&[MemoryRegion::default()], &memory));
    assert!(!regions_are_valid(&[MemoryRegion::new(0, 100, 41)], &memory));
    assert!(!regions_are_valid(&[MemoryRegion::new(1, 100, 40)], &memory));
    assert!(!regions_are_valid(&[MemoryRegion::new(0, u64::MAX, 1)], &memory));
    assert!(!regions_are_valid(
        &[MemoryRegion::new(0, 100, 10), MemoryRegion::new(10, 100, 10)],
        &memory
    ));
    assert!(!regions_are_valid(
        &[
            MemoryRegion::new(0, 100, 10),
            MemoryRegion::new(10, 200, 10),
            MemoryRegion::new(10, 150, 10)
        ],
        &memory
    ));
}

#[test]
fn only_the_deprecated_loader_takes_unaligned_pointers() {
    let memory = numbered(64);
    let regions = [MemoryRegion::new(0, 100, 64)];
    assert_eq!(translate_type(104, 8, 8, &regions, &aligned_loader(), &memory), Ok(4));
    assert_eq!(
        translate_type(101, 8, 8, &regions, &aligned_loader(), &memory),
        Err(unaligned())
    );
    assert_eq!(translate_type(101, 8, 8, &regions, &unaligned_loader(), &memory), Ok(1));
    assert_eq!(translate_type(101, 8, 1, &regions, &aligned_loader(), &memory), Ok(1));
    assert_eq!(
        translate_slice(101, 2, 16, 8, &regions, &aligned_loader(), &memory),
        Err(unaligned())
    );
    // An empty slice must be aligned too, but needs no memory.
    assert_eq!(
        translate_slice(1, 0, 16, 8, &regions, &aligned_loader(), &memory),
        Err(unaligned())
    );
    assert_eq!(translate_slice(8, 0, 16, 8, &regions, &aligned_loader(), &memory), Ok(0));
    assert_eq!(translate_slice(1, 0, 16, 8, &regions, &unaligned_loader(), &memory), Ok(0));
}

#[test]
fn slice_sizes_saturate() {
    let memory = numbered(64);
    let regions = [MemoryRegion::new(0, 104, 64)];
    assert_eq!(translate_slice(104, 4, 16, 8, &regions, &aligned_loader(), &memory), Ok(0));
    assert_eq!(
        translate_slice(104, 5, 16, 8, &regions, &aligned_loader(), &memory),
        Err(EbpfError::AccessViolation(104, 80))
    );
    // Sixteen times this count is zero modulo the machine's range.
    assert_eq!(
        translate_slice(104, 1 << 60, 16, 8, &regions, &aligned_loader(), &memory),
        Err(EbpfError::AccessViolation(104, u64::MAX))
    );
}

#[test]
fn numbers_are_little_endian() {
    let mut memory = numbered(32);
    assert_eq!(memory.read_u64(1), 0x0807060504030201);
    assert_eq!(memory.read_u8(5), 5);
    assert!(!memory.read_flag(0));
    assert!(memory.read_flag(31));
    memory.write_u64(3, 0x1122334455667788);
    assert_eq!(memory.read_u64(3), 0x1122334455667788);
    assert_eq!(
        memory.read_bytes(2, 10),
        [2, 0x88, 0x77, 0x66, 0x55, 0x44, 0x33, 0x22, 0x11, 11]
    );
    memory.write_u64(3, u64::MAX);
    assert_eq!(memory.read_u64(3), u64::MAX);
}

#[test]
fn writes_are_local() {
    let mut memory = numbered(8);
    memory.write_bytes(2, &[9, 9, 9]);
    assert_eq!(memory.bytes, [0, 1, 9, 9, 9, 5, 6, 7]);
    memory.write_u8(7, 8);
    assert_eq!(memory.bytes, [0, 1, 9, 9, 9, 5, 6, 8]);
    memory.write_bytes(0, &[]);
    assert_eq!(memory.bytes, [0, 1, 9, 9, 9, 5, 6, 8]);
    let same = memory.read_bytes(1, 5);
    memory.write_bytes(1, &same);
    assert_eq!(memory.bytes, [0, 1, 9, 9, 9, 5, 6, 8]);
}

#[test]
fn addresses_are_read_whole() {
    let memory = numbered(40);
    let key = memory.read_pubkey(3);
    assert_eq!(key.bytes[0], 3);
    assert_eq!(key.bytes[31], 34);
    assert!(key == memory.read_pubkey(3));
    assert!(key != memory.read_pubkey(4));
}

#[test]
fn byte_strings_are_read_in_order() {
    let mut memory = numbered(16);
    for word in [1000u64, 3, 1010, 2, 1000, 0] {
        memory.bytes.extend_from_slice(&word.to_le_bytes());
    }
    let regions = [MemoryRegion::new(0, 1000, 16)];
    let loader = aligned_loader();
    assert_eq!(
        read_byte_string(1002, 4, &regions, &loader, &memory),
        Ok(vec![2, 3, 4, 5])
    );
    assert_eq!(
        read_byte_strings(16, 3, &regions, &loader, &memory),
        Ok(vec![vec![0, 1, 2], vec![10, 11], vec![]])
    );
    assert_eq!(read_byte_strings(16, 0, &regions, &loader, &memory), Ok(vec![]));
    // The first one that cannot be read decides.
    memory.write_u64(24, 17);
    memory.write_u64(40, 18);
    assert_eq!(
        read_byte_strings(16, 3, &regions, &loader, &memory),
        Err(EbpfError::AccessViolation(1000, 17))
    );
}

fn text_of(bytes: &[u8]) -> Result<String, EbpfError> {
    let memory = HostMemory { bytes: bytes.to_vec() };
    let regions = [MemoryRegion::new(0, 1000, bytes.len() as u64)];
    translate_string(1000, bytes.len() as u64, &regions, &aligned_loader(), &memory)
}

#[test]
fn text_ends_at_the_first_zero() {
    assert_eq!(text_of("blagh\0blagh\0".as_bytes()), Ok("blagh".to_string()));
    assert_eq!(text_of("\0blagh".as_bytes()), Ok("".to_string()));
    assert_eq!(text_of("◎1".as_bytes()), Ok("◎1".to_string()));
    // What follows the zero need not be text.
    assert_eq!(text_of(&[b'a', 0, 0xff]), Ok("a".to_string()));
}

#[test]
fn text_must_be_utf8() {
    for bytes in [
        vec![b'a', b'b', 0xff, b'c'],
        vec![0xe2, 0x97],
        vec![b'a', 0xc0, 0x80],
        vec![0xed, 0xa0, 0x80],
        vec![0xf4, 0x90, 0x80, 0x80],
        vec![b'a', 0xff, 0, b'b'],
    ] {
        let shown: Vec<u8> = bytes.iter().copied().take_while(|b| *b != 0).collect();
        let expected = std::str::from_utf8(&shown).unwrap_err();
        match text_of(&bytes) {
            Err(EbpfError::UserError(BPFError::SyscallError(SyscallError::InvalidString(
                why,
                got,
            )))) => {
                assert_eq!(got, shown);
                assert_eq!(why.valid_up_to, expected.valid_up_to());
                assert_eq!(why.error_len, expected.error_len());
            }
            _ => panic!(),
        }
    }
}
