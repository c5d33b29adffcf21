# literal_codec

Verified coding of literals for a compressor that codes nibble by nibble with
adaptive, mixed context models, in the manner of a brotli stream recoded by an
arithmetic coder.

A literal is coded as its length and then its bytes, each as two nibbles. One
routine serves both directions: with an encoder it puts the literal of a
command, with a decoder it builds the literal up from what is read. It can be
stopped before any nibble, when the coder needs more input or output, and taken
up again later.

| module        | what it holds                                                       |
|---------------|---------------------------------------------------------------------|
| `probability` | nibble distributions and mixing weights, as traits                  |
| `interface`   | commands, results, the arithmetic coder and the byte source         |
| `context`     | the contexts that the last two bytes select                         |
| `priors`      | the tables of learnt distributions                                  |
| `bookkeeping` | what is kept from one command to the next                           |
| `nibble`      | how one nibble is predicted and what is learnt from it              |
| `count`       | how a length is coded                                               |
| `machine`     | the coding of a literal as a machine that talks to the coder        |
| `literal`     | the coding itself                                                   |
| `laws`        | what holds of all of it: literals survive, interruptions do not matter |
| `plain`       | a coder that leaves nibbles as they are, with models to go with it  |
| `feed`        | the decisions of a loop that feeds a reader into a compressing writer |

The contract of `LiteralState::encode_or_decode` is stated over the record of
calls that the coder received: they are the calls that `machine` asks for, with
the very distributions, billing and order, and the literal, the tables and the
result are where those calls lead.

`app/` runs the feeding loop on real streams and converts results to and from
those of the `brotli` crate.
