# lngap

Building blocks of off-chain games and registries that settle in Bitcoin channels,
written in Verus: every function of the library is verified against its contract,
but for the small ones named at the end, which call outside crates.

- `src/n4bit`: a sponge hash over 4-bit words, its round in Bitcoin Script, and
  the analysis of its S-box and its diffusion. The script of a round is proved to
  compute the native round.
- `src/lamport`: Lamport bit keys and Winternitz keys, their script gadgets, and a
  store that reveals no key to two values. The gadgets are proved to agree with
  decoding and verification off the chain.
- `src/script`: scripts under construction, their bytes, and the machine that runs
  them.
- `src/decode`: reading leaf scripts and witnesses back.
- `src/harness`: what the parties of a scenario decide: moves and claims of games on
  a fact chain, bonds of name registries, the venue of members, fee locks, and what
  the chain shows of it all.
- `app`: a program that decodes transactions of a regtest node, the floating-point
  statistics of the hash, and drivers that run the scenarios' worlds.
- `tests`: what the library does on concrete values.

What the library takes from outside crates (HASH160, script assembly and parsing, a
seeded generator, hexadecimal text) stands behind small functions whose contracts
are trusted; each says which outside function it calls.
