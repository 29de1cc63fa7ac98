# bidasker_writer

Keeps the best bid and offer of every dollar-quoted symbol of Binance, futures and spot, in shared
memory for other processes to read.

## Layout

* `src/`: the library, verified with Verus. It decides and computes, and does no input or output.
* `app/`: the program: connections, the shared memory, timers and logs around the library.
* `tests/`: tests of the library.

## The shared memory

There is one file for each market, under `/bidasker_writer_rust/mmap`:
`binance_bbo_futum_mem.mmap` and `binance_bbo_spot_mem.mmap`. Each holds 2000 records of 128 bytes:

| bytes    | what                                                        |
|----------|-------------------------------------------------------------|
| 0..8     | sequence number, native byte order                          |
| 8..24    | symbol, filled up with zeros                                |
| 24..44   | bid price, as text, filled up with zeros                    |
| 44..64   | bid quantity, likewise                                      |
| 64..84   | ask price, likewise                                         |
| 84..104  | ask quantity, likewise                                      |
| 104..112 | time in milliseconds, native byte order                     |

The sequence number is odd while a quote is being written, and grows by two with each quote. A
reader takes the number, then the quote, then the number again: if both numbers are the same and
even, and the record was not blanked in between, the quote is whole (`law_copy_is_one_quote` in
`src/reader.rs`).

When a symbol is no longer followed its record is blanked, with number and name, and may be given
to another symbol, for which the number starts at zero again. Nothing is proved of a reader whose
two looks have a blanking between them. A reader that compares the name as well tells most such
cases, but not all: a symbol that comes back to the same record shows the same name, and may have
reached the same number, with another quote.

## Kernel settings

The program asks for receive buffers of 2 MB. To let the kernel grant them:

```
sysctl -w net.core.rmem_max=16777216
sysctl -w net.ipv4.tcp_rmem="4096 87380 16777216"
```
