# flash_test

A tool that tests a flash drive: the write test fills the free space of the
drive with a file made of a pseudo-random byte stream, and the read test reads
the file back and checks every 16-byte lane against the same stream.

The stream comes from single AES rounds (the operations of the x86
`AESENC`/`AESDEC` instructions), computed here in software.

Layout:

- `src/gf.rs`: arithmetic in GF(2^8), the AES S-box and lookup tables.
- `src/block.rs`: 128-bit blocks as two 64-bit lanes and as 16 bytes.
- `src/aes.rs`: one AES encryption round and one decryption round.
- `src/pattern.rs`: the stream, its generator (write side) and the block
  check (read side), with the mismatch limit.
- `src/report.rs`: the text of a mismatch report.
- `src/orbit.rs`: runs of powers modulo 2^32 and the `--flrn` search.
- `src/cli.rs`: the command line.
- `app/main.rs`: file and disk I/O, timing and throughput output.

Usage: `flash_test --drive <mount point> [--path <file name>] --read-test|--write-test|--full-test`,
or `--flrn`.
