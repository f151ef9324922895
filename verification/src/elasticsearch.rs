//! The writer to a search index: how records are buffered as the lines of a
//! bulk request, and when the request is sent.

use crate::value::copy_of;
use crate::writer::{payloads_view, FormatterContext};
use vstd::prelude::*;

verus! {

/// The line that precedes each document of a bulk request: `{"index": {}}`.
pub open spec fn index_action() -> Seq<u8> {
    seq![
        0x7bu8,
        0x22u8,
        0x69u8,
        0x6eu8,
        0x64u8,
        0x65u8,
        0x78u8,
        0x22u8,
        0x3au8,
        0x20u8,
        0x7bu8,
        0x7du8,
        0x7du8,
    ]
}

/// The lines of a bulk request that index the first `n` payloads: for each
/// payload the action line and the payload.
pub open spec fn bulk_lines(payloads: Seq<Seq<u8>>, n: int) -> Seq<Seq<u8>>
    decreases n,
{
    if n <= 0 {
        seq![]
    } else {
        bulk_lines(payloads, n - 1).push(index_action()).push(payloads[n - 1])
    }
}

/// The state of a writer to a search index.
pub struct ElasticSearchWriterView {
    pub index_name: Seq<char>,
    pub max_batch_size: Option<usize>,
    /// The lines of the bulk request that is being built.
    pub docs_buffer: Seq<Seq<u8>>,
}

/// Buffers documents and indexes them in bulk.
#[derive(Debug)]
pub struct ElasticSearchWriter {
    index_name: String,
    max_batch_size: Option<usize>,
    docs_buffer: Vec<Vec<u8>>,
}

impl View for ElasticSearchWriter {
    type V = ElasticSearchWriterView;

    closed spec fn view(&self) -> ElasticSearchWriterView {
        ElasticSearchWriterView {
            index_name: self.index_name@,
            max_batch_size: self.max_batch_size,
            docs_buffer: payloads_view(self.docs_buffer@),
        }
    }
}

fn index_action_line() -> (r: Vec<u8>)
    ensures
        r@ == index_action(),
{
    let mut line: Vec<u8> = Vec::new();
    line.push(0x7b);
    line.push(0x22);
    line.push(0x69);
    line.push(0x6e);
    line.push(0x64);
    line.push(0x65);
    line.push(0x78);
    line.push(0x22);
    line.push(0x3a);
    line.push(0x20);
    line.push(0x7b);
    line.push(0x7d);
    line.push(0x7d);
    assert(line@ =~= index_action());
    line
}

impl ElasticSearchWriter {
    /// A writer to the index `index_name` with an empty buffer.
    pub fn new(index_name: String, max_batch_size: Option<usize>) -> (r: ElasticSearchWriter)
        ensures
            r@ == (ElasticSearchWriterView {
                index_name: index_name@,
                max_batch_size,
                docs_buffer: seq![],
            }),
    {
        let r = ElasticSearchWriter { index_name, max_batch_size, docs_buffer: Vec::new() };
        assert(r@.docs_buffer =~= seq![]);
        r
    }

    /// The name of the index that the documents go to.
    pub fn index_name(&self) -> (r: &String)
        ensures
            r@ == self@.index_name,
    {
        &self.index_name
    }

    /// Buffers the payloads of a record, each behind its action line, and
    /// tells whether the buffer is to be flushed now: it is when it holds
    /// as many documents as the batch size or more.
    pub fn write(&mut self, data: &FormatterContext) -> (flush_now: bool)
        ensures
            final(self)@ == (ElasticSearchWriterView {
                docs_buffer: old(self)@.docs_buffer + bulk_lines(
                    data@.payloads,
                    data@.payloads.len() as int,
                ),
                ..old(self)@
            }),
            flush_now == (old(self)@.max_batch_size matches Some(max_batch_size)
                && final(self)@.docs_buffer.len() / 2 >= max_batch_size),
    {
        let mut i: usize = 0;
        while i < data.payloads.len()
            invariant
                i <= data.payloads.len(),
                self.index_name == old(self).index_name,
                self.max_batch_size == old(self).max_batch_size,
                payloads_view(self.docs_buffer@) == old(self)@.docs_buffer + bulk_lines(
                    data@.payloads,
                    i as int,
                ),
            decreases data.payloads.len() - i,
        {
            let ghost before = payloads_view(self.docs_buffer@);
            assert(data@.payloads[i as int] == data.payloads[i as int]@);
            self.docs_buffer.push(index_action_line());
            self.docs_buffer.push(copy_of(&data.payloads[i]));
            assert(payloads_view(self.docs_buffer@) =~= before.push(index_action()).push(
                data@.payloads[i as int],
            ));
            assert(payloads_view(self.docs_buffer@) =~= old(self)@.docs_buffer + bulk_lines(
                data@.payloads,
                i + 1,
            ));
            i += 1;
        }
        match self.max_batch_size {
            Some(max_batch_size) => self.docs_buffer.len() / 2 >= max_batch_size,
            None => false,
        }
    }

    /// Empties the buffer into the body of the bulk request to send. An
    /// empty buffer gives no request.
    pub fn flush(&mut self) -> (body: Option<Vec<Vec<u8>>>)
        ensures
            final(self)@ == (ElasticSearchWriterView { docs_buffer: seq![], ..old(self)@ }),
            match body {
                Some(lines) => old(self)@.docs_buffer.len() > 0 && payloads_view(lines@) == old(
                    self,
                )@.docs_buffer,
                None => old(self)@.docs_buffer.len() == 0,
            },
    {
        if self.docs_buffer.len() == 0 {
            assert(self@.docs_buffer =~= seq![]);
            return None;
        }
        let mut lines: Vec<Vec<u8>> = Vec::new();
        core::mem::swap(&mut self.docs_buffer, &mut lines);
        assert(self@.docs_buffer =~= seq![]);
        Some(lines)
    }

    /// Whether a failed write may be tried again.
    pub fn retriable(&self) -> (r: bool)
        ensures
            !r,
    {
        false
    }

    /// Whether writes must come from one thread.
    pub fn single_threaded(&self) -> (r: bool)
        ensures
            !r,
    {
        false
    }
}

} // verus!
