# ml_core

Data preparation for a URL classifier, verified with Verus.

- `src/data/preprocessing.rs`: the character set, the byte look-up table
  and the one-hot encoding of URLs (`FIXED_URL_LEN` rows of
  `CHARSET_WORD_LEN` cells), with the laws that the encoding keeps: the row
  shape, the count of ones, truncation and what two URLs share when their
  encodings are equal.
- `src/data/source.rs`: raw records and the rule that reads the label column.
- `src/data/dataset.rs`: model-ready items and the dataset that encodes a
  list of records.
- `src/lib.rs`: the path of the labelled URL list.
- `app/`: CSV reading with serde, the burn dataset and batcher, and the
  model traits.
