//! Nodes that prepare text for embedding.

use crate::node::Node;
use crate::text;
use vstd::prelude::*;

verus! {

/// How many bytes a text has in UTF-8.
pub open spec fn byte_len(text: Seq<char>) -> nat {
    vstd::utf8::encode_utf8(text).len()
}

/// How many bytes the lines have together.
pub open spec fn total_bytes(lines: Seq<String>) -> nat
    decreases lines.len(),
{
    if lines.len() == 0 {
        0
    } else {
        total_bytes(lines.drop_last()) + byte_len(lines.last()@)
    }
}

/// The chunk that the lines make.
pub open spec fn chunk_of(lines: Seq<String>) -> Seq<char> {
    text::joined(text::texts(lines), "\n"@)
}

/// Joins text, line by line, into chunks of at least `chunk_size` bytes.
#[derive(Debug)]
pub struct LengthChunker {
    /// The lines of the chunk that is being filled.
    pub chunks: Vec<String>,
    /// How many bytes those lines have.
    pub counter: usize,
    /// How many bytes make a chunk.
    pub chunk_size: usize,
}

impl LengthChunker {
    /// The counter counts the bytes of the lines that are held.
    pub open spec fn counted(self) -> bool {
        self.counter == total_bytes(self.chunks@)
    }
}

impl Node for LengthChunker {
    type Input = String;

    type Output = Vec<String>;

    type Error = String;

    open spec fn accepts(self, input: String) -> bool {
        self.counter + byte_len(input@) <= usize::MAX
    }

    /// The line is added to those that are held. When they have enough bytes, they are given back
    /// as one chunk, and the next chunk begins.
    open spec fn executes(
        self,
        input: String,
        after: Self,
        result: Result<Vec<String>, String>,
    ) -> bool {
        let counter = self.counter + byte_len(input@);
        let lines = self.chunks@.push(input);
        &&& after.chunk_size == self.chunk_size
        &&& result matches Ok(output)
        &&& if counter >= self.chunk_size {
            &&& text::texts(output@) == seq![chunk_of(lines)]
            &&& after.chunks@ == Seq::<String>::empty()
            &&& after.counter == 0
        } else {
            &&& output@ == Seq::<String>::empty()
            &&& after.chunks@ == lines
            &&& after.counter == counter
        }
    }

    /// The lines that are held are given back as one chunk, even when there are none; they stay
    /// held.
    open spec fn flushes(self, after: Self, result: Result<Vec<String>, String>) -> bool {
        &&& after == self
        &&& result matches Ok(output)
        &&& text::texts(output@) == seq![chunk_of(self.chunks@)]
    }

    fn execute(&mut self, input: &String) -> (result: Result<Vec<String>, String>) {
        let ghost lines = self.chunks@.push(*input);
        self.counter = self.counter + input.as_str().len();
        self.chunks.push(input.clone());
        let mut output: Vec<String> = Vec::new();
        if self.counter >= self.chunk_size {
            output.push(text::join_lines(&self.chunks));
            self.chunks = Vec::new();
            self.counter = 0;
            assert(text::texts(output@) =~= seq![chunk_of(lines)]);
        }
        Ok(output)
    }

    fn flush(&mut self) -> (result: Result<Vec<String>, String>) {
        let mut output: Vec<String> = Vec::new();
        output.push(text::join_lines(&self.chunks));
        assert(text::texts(output@) =~= seq![chunk_of(self.chunks@)]);
        Ok(output)
    }
}

/// The counter keeps counting the bytes of the lines that are held, so a chunk is given back
/// exactly when its lines have at least `chunk_size` bytes.
pub proof fn chunks_have_the_size(
    chunker: LengthChunker,
    input: String,
    after: LengthChunker,
    result: Result<Vec<String>, String>,
)
    requires
        chunker.counted(),
        chunker.executes(input, after, result),
    ensures
        after.counted(),
        result matches Ok(output) && (output@.len() == 1 <==> total_bytes(
            chunker.chunks@.push(input),
        ) >= chunker.chunk_size) && (output@.len() == 0 <==> total_bytes(
            chunker.chunks@.push(input),
        ) < chunker.chunk_size),
{
    assert(chunker.chunks@.push(input).drop_last() =~= chunker.chunks@);
    let texts = text::texts(result->Ok_0@);
    assert(texts.len() == result->Ok_0@.len());
}

/// What a mock embedding of `input` says.
pub open spec fn mock_embedding(input: Seq<char>) -> Seq<char> {
    "EMBEDDING_FOR: "@ + input
}

/// Gives every text a made-up embedding, and remembers it.
#[derive(Debug)]
pub struct MockEmbedder {
    /// The embeddings that were made.
    pub embeddings: Vec<String>,
}

impl Node for MockEmbedder {
    type Input = String;

    type Output = Vec<String>;

    type Error = String;

    open spec fn accepts(self, input: String) -> bool {
        true
    }

    open spec fn executes(
        self,
        input: String,
        after: Self,
        result: Result<Vec<String>, String>,
    ) -> bool {
        &&& result matches Ok(output)
        &&& text::texts(output@) == seq![mock_embedding(input@)]
        &&& after.embeddings@ == self.embeddings@ + output@
    }

    open spec fn flushes(self, after: Self, result: Result<Vec<String>, String>) -> bool {
        &&& after == self
        &&& result matches Ok(output)
        &&& output@ == Seq::<String>::empty()
    }

    fn execute(&mut self, input: &String) -> (result: Result<Vec<String>, String>) {
        let ghost before = self.embeddings@;
        let mut embedding = "EMBEDDING_FOR: ".to_owned();
        embedding.append(input.as_str());
        self.embeddings.push(embedding.clone());
        let mut output: Vec<String> = Vec::new();
        output.push(embedding);
        assert(text::texts(output@) =~= seq![mock_embedding(input@)]);
        assert(self.embeddings@ =~= before + output@);
        Ok(output)
    }

    fn flush(&mut self) -> (result: Result<Vec<String>, String>) {
        Ok(Vec::new())
    }
}

/// A line is never lost: it is held with those before it, or, once they have enough bytes together,
/// given back with them as one chunk, joined line by line, after which nothing is held.
pub proof fn a_line_is_held_or_given_back(
    chunker: LengthChunker,
    input: String,
    after: LengthChunker,
    result: Result<Vec<String>, String>,
    lines: Vec<String>,
    joined: String,
)
    requires
        chunker.executes(input, after, result),
        lines@ == chunker.chunks@.push(input),
        call_ensures(text::join_lines, (&lines,), joined),
    ensures
        chunker.counter + vstd::utf8::encode_utf8(input@).len() <= usize::MAX ==> chunker.accepts(
            input,
        ),
        after.chunk_size == chunker.chunk_size,
        result matches Ok(output) && {
            let bytes = chunker.counter + vstd::utf8::encode_utf8(input@).len();
            &&& bytes >= chunker.chunk_size ==> {
                &&& output@.len() == 1
                &&& output@[0]@ == joined@
                &&& after.chunks@.len() == 0
                &&& after.counter == 0
            }
            &&& bytes < chunker.chunk_size ==> {
                &&& output@.len() == 0
                &&& after.chunks@ == lines@
                &&& after.counter == bytes
            }
        },
{
    let output = result->Ok_0@;
    assert(text::texts(output).len() == output.len());
    if output.len() == 1 {
        assert(text::texts(output)[0] == output[0]@);
    }
}

/// A flush gives back the lines that are held as one chunk, joined line by line, and changes
/// nothing.
pub proof fn a_flush_gives_back_the_held_lines(
    chunker: LengthChunker,
    after: LengthChunker,
    result: Result<Vec<String>, String>,
    joined: String,
)
    requires
        chunker.flushes(after, result),
        call_ensures(text::join_lines, (&chunker.chunks,), joined),
    ensures
        after == chunker,
        result matches Ok(output) && output@.len() == 1 && output@[0]@ == joined@,
{
    let output = result->Ok_0@;
    assert(text::texts(output).len() == output.len());
    assert(text::texts(output)[0] == output[0]@);
}

/// Every text gets one embedding, which says for which text it is, and is remembered behind those
/// before it. A flush adds none.
pub proof fn every_text_is_embedded(
    embedder: MockEmbedder,
    input: String,
    after: MockEmbedder,
    result: Result<Vec<String>, String>,
    flushed: MockEmbedder,
    rest: Result<Vec<String>, String>,
)
    requires
        embedder.executes(input, after, result),
        embedder.flushes(flushed, rest),
    ensures
        embedder.accepts(input),
        result matches Ok(output) && {
            &&& output@.len() == 1
            &&& output@[0]@ == "EMBEDDING_FOR: "@ + input@
            &&& after.embeddings@ == embedder.embeddings@.push(output@[0])
        },
        flushed == embedder,
        rest matches Ok(output) && output@.len() == 0,
{
    let output = result->Ok_0@;
    assert(text::texts(output).len() == output.len());
    assert(text::texts(output)[0] == output[0]@);
    assert(output =~= seq![output[0]]);
    assert(embedder.embeddings@ + output =~= embedder.embeddings@.push(output[0]));
}

} // verus!
