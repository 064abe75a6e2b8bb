//! Model-ready items and the dataset that holds them.

use vstd::prelude::*;
use vstd::utf8::encode_utf8;

use crate::data::preprocessing::{encoded_url, label_flag, OHEStrategy, Preprocessing};
use crate::data::source::RawRecord;

verus! {

/// A record in model-ready form.
///
/// `url` is the one-hot representation of the URL: `FIXED_URL_LEN` rows of
/// `CHARSET_WORD_LEN` cells each, every cell `0` or `1` (see
/// `OHEStrategy`). `is_malicious` is `1` for a malicious URL, `0` otherwise.
#[derive(Debug, Clone)]
pub struct RawItem {
    pub is_malicious: u8,
    pub url: Vec<u8>,
}

impl View for RawItem {
    /// The flag and the cells of the encoding.
    type V = (u8, Seq<u8>);

    open spec fn view(&self) -> (u8, Seq<u8>) {
        (self.is_malicious, self.url@)
    }
}

/// The model-ready form of a raw record.
pub open spec fn encoded_record(record: RawRecord) -> (u8, Seq<u8>) {
    (label_flag(record.label), encoded_url(encode_utf8(record.url@)))
}

/// The model-ready form of a record is what `encode_url` gives for it: the
/// flag is `1` for a malicious record and `0` for a benign one, and the cells
/// are the one-hot encoding of every byte of the URL.
pub proof fn lemma_encoded_record_is_encoding(record: RawRecord)
    ensures
        encoded_record(record).0 == (if record.label { 1u8 } else { 0u8 }),
        encoded_record(record).1 == encoded_url(encode_utf8(record.url@)),
        label_flag(true) == 1 && label_flag(false) == 0,
{
}

impl RawItem {
    /// A copy of the item.
    pub fn duplicate(&self) -> (copy: RawItem)
        ensures
            copy@ == self@,
    {
        let mut url: Vec<u8> = Vec::with_capacity(self.url.len());
        let mut i: usize = 0;
        while i < self.url.len()
            invariant
                0 <= i <= self.url@.len(),
                url@ == self.url@.take(i as int),
            decreases self.url@.len() - i,
        {
            url.push(self.url[i]);
            i += 1;
            assert(url@ =~= self.url@.take(i as int));
        }
        assert(url@ =~= self.url@);
        RawItem { is_malicious: self.is_malicious, url }
    }
}

/// A collection of model-ready records.
pub struct Dataset {
    pub records: Vec<RawItem>,
}

impl View for Dataset {
    type V = Seq<(u8, Seq<u8>)>;

    open spec fn view(&self) -> Seq<(u8, Seq<u8>)> {
        self.records@.map_values(|item: RawItem| item@)
    }
}

impl Dataset {
    /// Encodes every record, in order.
    pub fn from_records(records: &Vec<RawRecord>) -> (dataset: Dataset)
        ensures
            dataset@.len() == records@.len(),
            forall|i: int| 0 <= i < records@.len() ==> #[trigger] dataset@[i] == encoded_record(records@[i]),
            forall|i: int|
                0 <= i < records@.len() ==> #[trigger] dataset.records@[i].is_malicious == (if records@[i].label { 1u8 } else { 0u8 }),
            forall|i: int|
                0 <= i < records@.len() ==> #[trigger] dataset.records@[i].url@ == encoded_url(encode_utf8(records@[i].url@)),
    {
        let mut items: Vec<RawItem> = Vec::with_capacity(records.len());
        let mut i: usize = 0;
        while i < records.len()
            invariant
                0 <= i <= records@.len(),
                items@.len() == i,
                forall|j: int| 0 <= j < i ==> #[trigger] items@[j]@ == encoded_record(records@[j]),
            decreases records@.len() - i,
        {
            let item = OHEStrategy::encode_url(&records[i]);
            items.push(item);
            i += 1;
        }
        let dataset = Dataset { records: items };
        assert forall|i: int| 0 <= i < records@.len() implies #[trigger] dataset.records@[i].is_malicious == (if records@[i].label { 1u8 } else { 0u8 }) by {
            assert(dataset.records@[i]@ == encoded_record(records@[i]));
        }
        assert forall|i: int| 0 <= i < records@.len() implies #[trigger] dataset.records@[i].url@ == encoded_url(encode_utf8(records@[i].url@)) by {
            assert(dataset.records@[i]@ == encoded_record(records@[i]));
        }
        dataset
    }

    /// The item at `index`, if there is one.
    pub fn get(&self, index: usize) -> (item: Option<RawItem>)
        ensures
            index < self@.len() ==> (item matches Some(it) && it@ == self@[index as int]),
            index >= self@.len() ==> item is None,
    {
        if index < self.records.len() {
            Some(self.records[index].duplicate())
        } else {
            None
        }
    }

    /// The number of items.
    pub fn len(&self) -> (n: usize)
        ensures
            n == self@.len(),
    {
        self.records.len()
    }
}

} // verus!
