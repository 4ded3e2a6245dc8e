# bpf_syscalls

The syscalls of a loader that runs BPF programs, written in Rust and proved with Verus.

A program in the virtual machine calls its host through syscalls: it logs, hashes, derives
addresses, takes memory from its heap, and invokes other programs. The host must not trust what it
is passed. Every pointer is translated through the program's memory regions, every call is paid in
compute units, and a program that calls another one must hold what it passes on.

## The library

`src/` holds what is decided and computed. Host memory is a run of bytes; regions are windows into
it. A compute meter, a log and an invocation are plain values.

- `memory`: regions, translation of virtual addresses, reads and writes.
- `guest`: what a program describes by pointer and length: byte strings, lists of them, text.
- `text`, `native_token`: digits, UTF-8, and amounts of the native token.
- `context`: compute meter, log, prices and features.
- `error`, `pubkey`: errors with the return values by which programs report them; addresses.
- `log`, `crypto`, `program_address`, `allocator`: the syscalls.
- `instruction`, `invoke_signed`, `invoke`: cross-program invocation, from the layouts in Rust and
  C to the accounts that are copied back.
- `register`: which syscalls a program is offered.

Contracts say what each function returns and changes on every input. Functions whose names begin
with `law_` state what holds across functions: that an access stays in one region, that a syscall
writes only where the program may write, that no privilege is gained by an invocation, that an
account that was copied back is read as the callee left it.

Few things are taken on trust: the address translation of `solana_rbpf`, the privilege check of
`solana_runtime`, address derivation, base 58, SHA-256, message compilation, loader states and
return values of errors of `solana_sdk`, and two functions of the standard library. Each stands in
a small function whose comment says what is claimed of it.

## The application

`app/` connects the library to the virtual machine and the runtime: it copies memory in and out,
charges the runtime's meter, runs callees, and multiplies curve points. It is ordinary Rust and not
proved.
