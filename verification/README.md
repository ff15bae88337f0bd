# poppins

The data pipeline of Poppins — training samples, their XML-tagged form, a byte-pair-encoding
tokenizer and the model sizing rules — as a Verus library whose functions carry proved
contracts.

- `src/` — the verified library:
  - `sample/` — samples, languages and indents, building samples from a training document
    (by ids or by child tags) and sharing them out between training and validation;
  - `train_xml.rs` — the entries of a training document that samples are built from;
  - `beyond_scope/` — the default topics to decline and the samples that decline them;
  - `tag/` — writing samples as tagged text (binary or pretty) and the byte lengths and
    offsets of what is written;
  - `bpe/` — special tokens, the initial vocabulary, the training sequence, pair counts,
    training by merges, tokenizing text, the tag-id cache and the saved form of a tokenizer;
  - `config/` — compression and rotary dimensions, parameter counts, proven model shapes;
  - `device/` — choosing the compute device from probes, and device defaults;
  - `cli.rs` — checking device and model names.
- `app/` — the `poppins` command: argument parsing, probing the machine, files and JSON,
  and the parts that need floating point.
- `tests/` — the test suite.
