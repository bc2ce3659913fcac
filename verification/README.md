# fuel

The front half of an MP3 decoder, written in Verus: every function of the
library carries a contract over a mathematical model of the bytes it reads,
and Verus proves it.

## Layout

- `src/reader.rs`: `ByteReader`, an in-memory byte stream with a position.
- `src/bits.rs`: bit strings of bytes and their values (spec functions and lemmas).
- `src/bite.rs`: `Biter`, a buffered big-endian bit reader; its model is the
  sequence of bits still to be read.
- `src/id3v2/`: the ID3v2 tag in front of the audio: header, frame headers,
  text and number payloads, and the walk over the frames of a tag.
- `src/mpeg/`: the 32-bit MPEG audio frame header and the generic side information.
- `src/mpeg1/layer3/`: MPEG-1 Layer III: side information, the bit
  reservoir that carries main data across frames, Huffman tree walks,
  scalefactors, and the spectral values of each granule: the big-values
  pairs (with their linbits and signs) and the count1 quadruples.
- `src/lib.rs`: `decode_stream`, which reads the tag and then the Layer III
  frames up to the end of the stream.
- The Huffman tables themselves are data the caller hands in (`HuffmanTables`);
  the program in `app/` does not carry them yet and passes empty trees.
- `src/text.rs`: the two calls into `std` that have no specification in vstd
  (UTF-8 decoding and integer parsing), behind wrappers.
- `app/`: the command line program (`decode` and `gentests`), logging, WAV
  output and the values with floating point, which stay outside the library.
- `tests/`: tests of the library on concrete inputs.
