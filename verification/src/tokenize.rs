//! The tokenizer adapter: encode query-document pairs and single texts, then
//! pad them into rectangular integer batches for the evaluators.
//!
//! The encoder itself comes from an outside crate and is trusted only for
//! the shape of what it returns; the padding and truncation that make a
//! batch out of its encodings are verified exactly.

use vstd::prelude::*;
use crate::error::AppError;

verus! {

/// The tokenizer of the outside crate that turns text into token ids.
#[verifier::external_type_specification]
#[verifier::external_body]
pub struct ExTokenizer(tokenizers::Tokenizer);

/// One encoded text: token ids, the attention mask marking real tokens, and
/// the sequence-pair type ids, all of one length.
pub struct EncodedText {
    pub ids: Vec<u32>,
    pub attention_mask: Vec<u32>,
    pub type_ids: Vec<u32>,
}

impl EncodedText {
    /// The three parallel arrays of an encoding have one length.
    pub open spec fn wf(&self) -> bool {
        &&& self.ids@.len() == self.attention_mask@.len()
        &&& self.ids@.len() == self.type_ids@.len()
    }
}

/// Relies on tokenizers' `Tokenizer::from_bytes`: parse a serialized
/// tokenizer definition.
#[verifier::external_body]
fn tokenizer_from_bytes(bytes: &Vec<u8>) -> (r: Result<tokenizers::Tokenizer, String>)
{
    match tokenizers::Tokenizer::from_bytes(bytes.as_slice()) {
        Ok(t) => Ok(t),
        Err(e) => Err(e.to_string()),
    }
}

/// Relies on tokenizers' `Tokenizer::encode` on a `(query, document)` pair:
/// the encoding's ids, attention mask and type ids are parallel arrays.
#[verifier::external_body]
fn encode_pair(tok: &tokenizers::Tokenizer, query: &str, doc: &str) -> (r: Result<
    EncodedText,
    String,
>)
    ensures
        r matches Ok(e) ==> e.wf(),
{
    match tok.encode((query, doc), true) {
        Ok(enc) => Ok(
            EncodedText {
                ids: enc.get_ids().to_vec(),
                attention_mask: enc.get_attention_mask().to_vec(),
                type_ids: enc.get_type_ids().to_vec(),
            },
        ),
        Err(e) => Err(e.to_string()),
    }
}

/// Relies on tokenizers' `Tokenizer::encode` on a single text: the
/// encoding's ids, attention mask and type ids are parallel arrays.
#[verifier::external_body]
fn encode_single(tok: &tokenizers::Tokenizer, text: &str) -> (r: Result<EncodedText, String>)
    ensures
        r matches Ok(e) ==> e.wf(),
{
    match tok.encode(text, true) {
        Ok(enc) => Ok(
            EncodedText {
                ids: enc.get_ids().to_vec(),
                attention_mask: enc.get_attention_mask().to_vec(),
                type_ids: enc.get_type_ids().to_vec(),
            },
        ),
        Err(e) => Err(e.to_string()),
    }
}

/// A rectangular integer batch: one row per text, one column per token
/// position.
pub struct TokenBatch {
    pub ids: Vec<Vec<i64>>,
    pub attention_mask: Vec<Vec<i64>>,
    pub type_ids: Vec<Vec<i64>>,
}

impl TokenBatch {
    /// All three matrices have `rows` rows of `cols` entries each.
    pub open spec fn wf(&self, rows: int, cols: int) -> bool {
        &&& self.ids@.len() == rows
        &&& self.attention_mask@.len() == rows
        &&& self.type_ids@.len() == rows
        &&& forall|i: int| 0 <= i < rows ==> (#[trigger] self.ids@[i])@.len() == cols
        &&& forall|i: int| 0 <= i < rows ==> (#[trigger] self.attention_mask@[i])@.len() == cols
        &&& forall|i: int| 0 <= i < rows ==> (#[trigger] self.type_ids@[i])@.len() == cols
    }
}

/// A batch shaped for `rows` texts: rectangular, with a column count within
/// the length cap.
pub open spec fn padded_shape(b: TokenBatch, rows: int, max_len: int) -> bool {
    exists|cols: int| 0 <= cols <= max_len && #[trigger] b.wf(rows, cols)
}

/// A batch shaped for `rows` texts whose type ids are all zero.
pub open spec fn padded_shape_zero_types(b: TokenBatch, rows: int, max_len: int) -> bool {
    exists|cols: int|
        {
            &&& 0 <= cols <= max_len
            &&& #[trigger] b.wf(rows, cols)
            &&& forall|i: int, j: int| 0 <= i < rows && 0 <= j < cols ==> b.type_ids@[i]@[j] == 0
        }
}

/// The column count of a batch: the longest encoding, each capped at
/// `max_length`.
pub open spec fn spec_batch_cols(encs: Seq<EncodedText>, max_length: int) -> int
    decreases encs.len(),
{
    if encs.len() == 0 {
        0
    } else {
        let rest = spec_batch_cols(encs.drop_last(), max_length);
        let this = if encs.last().ids@.len() <= max_length {
            encs.last().ids@.len() as int
        } else {
            max_length
        };
        if this >= rest {
            this
        } else {
            rest
        }
    }
}

/// One padded row: the first `cols` values, the tail filled with zeros.
pub open spec fn spec_padded_cell(src: Seq<u32>, cols: int, j: int) -> i64 {
    if j < src.len() && j < cols {
        src[j] as i64
    } else {
        0
    }
}

/// Pad one array of token values out to `cols` entries: the prefix is kept,
/// anything beyond `cols` is cut, and the tail is zero.
fn pad_row(src: &Vec<u32>, cols: usize) -> (r: Vec<i64>)
    ensures
        r@.len() == cols,
        forall|j: int| 0 <= j < cols ==> #[trigger] r@[j] == spec_padded_cell(src@, cols as int, j),
{
    let mut r: Vec<i64> = Vec::new();
    for j in 0..cols
        invariant
            r@.len() == j,
            forall|k: int| 0 <= k < j ==> #[trigger] r@[k] == spec_padded_cell(
                src@,
                cols as int,
                k,
            ),
    {
        if j < src.len() {
            r.push(src[j] as i64);
        } else {
            r.push(0);
        }
    }
    r
}

/// Pad a batch of encodings to its longest member, capped at `max_length`.
///
/// Row `i` of each matrix keeps the prefix of encoding `i` up to the column
/// count and is zero beyond it; the column count is the longest capped
/// encoding of the batch.
pub fn pad_batch(encodings: &Vec<EncodedText>, max_length: usize) -> (r: TokenBatch)
    requires
        forall|i: int| 0 <= i < encodings@.len() ==> (#[trigger] encodings@[i]).wf(),
    ensures
        ({
            let cols = spec_batch_cols(encodings@, max_length as int);
            &&& r.wf(encodings@.len() as int, cols)
            &&& cols <= max_length || encodings@.len() == 0
            &&& forall|i: int, j: int|
                #![trigger r.ids@[i]@[j]]
                0 <= i < encodings@.len() && 0 <= j < cols ==> r.ids@[i]@[j] == spec_padded_cell(
                    encodings@[i].ids@,
                    cols,
                    j,
                )
            &&& forall|i: int, j: int|
                #![trigger r.attention_mask@[i]@[j]]
                0 <= i < encodings@.len() && 0 <= j < cols ==> r.attention_mask@[i]@[j]
                    == spec_padded_cell(encodings@[i].attention_mask@, cols, j)
            &&& forall|i: int, j: int|
                #![trigger r.type_ids@[i]@[j]]
                0 <= i < encodings@.len() && 0 <= j < cols ==> r.type_ids@[i]@[j]
                    == spec_padded_cell(encodings@[i].type_ids@, cols, j)
        }),
{
    let n = encodings.len();
    let mut cols: usize = 0;
    for i in 0..n
        invariant
            n == encodings@.len(),
            cols == spec_batch_cols(encodings@.subrange(0, i as int), max_length as int),
            cols <= max_length || i == 0,
    {
        let len = encodings[i].ids.len();
        let capped = if len <= max_length {
            len
        } else {
            max_length
        };
        if capped > cols {
            cols = capped;
        }
        proof {
            let pref = encodings@.subrange(0, i + 1 as int);
            assert(pref.drop_last() =~= encodings@.subrange(0, i as int));
            assert(pref.last() == encodings@[i as int]);
        }
    }
    proof {
        assert(encodings@.subrange(0, n as int) =~= encodings@);
    }
    let mut ids: Vec<Vec<i64>> = Vec::new();
    let mut attention_mask: Vec<Vec<i64>> = Vec::new();
    let mut type_ids: Vec<Vec<i64>> = Vec::new();
    for i in 0..n
        invariant
            n == encodings@.len(),
            cols == spec_batch_cols(encodings@, max_length as int),
            forall|k: int| 0 <= k < n ==> (#[trigger] encodings@[k]).wf(),
            ids@.len() == i,
            attention_mask@.len() == i,
            type_ids@.len() == i,
            forall|k: int| 0 <= k < i ==> (#[trigger] ids@[k])@.len() == cols,
            forall|k: int| 0 <= k < i ==> (#[trigger] attention_mask@[k])@.len() == cols,
            forall|k: int| 0 <= k < i ==> (#[trigger] type_ids@[k])@.len() == cols,
            forall|k: int, j: int|
                #![trigger ids@[k]@[j]]
                0 <= k < i && 0 <= j < cols ==> ids@[k]@[j] == spec_padded_cell(
                    encodings@[k].ids@,
                    cols as int,
                    j,
                ),
            forall|k: int, j: int|
                #![trigger attention_mask@[k]@[j]]
                0 <= k < i && 0 <= j < cols ==> attention_mask@[k]@[j] == spec_padded_cell(
                    encodings@[k].attention_mask@,
                    cols as int,
                    j,
                ),
            forall|k: int, j: int|
                #![trigger type_ids@[k]@[j]]
                0 <= k < i && 0 <= j < cols ==> type_ids@[k]@[j] == spec_padded_cell(
                    encodings@[k].type_ids@,
                    cols as int,
                    j,
                ),
    {
        ids.push(pad_row(&encodings[i].ids, cols));
        attention_mask.push(pad_row(&encodings[i].attention_mask, cols));
        type_ids.push(pad_row(&encodings[i].type_ids, cols));
    }
    TokenBatch { ids, attention_mask, type_ids }
}

/// A matrix of `rows` rows of `cols` zeros.
pub fn zero_rows(rows: usize, cols: usize) -> (r: Vec<Vec<i64>>)
    ensures
        r@.len() == rows,
        forall|i: int| 0 <= i < rows ==> (#[trigger] r@[i])@.len() == cols,
        forall|i: int, j: int|
            #![trigger r@[i]@[j]]
            0 <= i < rows && 0 <= j < cols ==> r@[i]@[j] == 0,
{
    let mut r: Vec<Vec<i64>> = Vec::new();
    for i in 0..rows
        invariant
            r@.len() == i,
            forall|k: int| 0 <= k < i ==> (#[trigger] r@[k])@.len() == cols,
            forall|k: int, j: int|
                #![trigger r@[k]@[j]]
                0 <= k < i && 0 <= j < cols ==> r@[k]@[j] == 0,
    {
        let mut row: Vec<i64> = Vec::new();
        for j in 0..cols
            invariant
                row@.len() == j,
                forall|k: int| 0 <= k < j ==> #[trigger] row@[k] == 0,
        {
            row.push(0);
        }
        r.push(row);
    }
    r
}

/// The tokenizer with the sequence-length cap it was loaded under.
pub struct TokenizerWrapper {
    tokenizer: tokenizers::Tokenizer,
    max_length: usize,
}

impl TokenizerWrapper {
    /// The sequence-length cap of this tokenizer.
    pub closed spec fn max_len(&self) -> int {
        self.max_length as int
    }

    /// Build a tokenizer from its serialized definition.
    pub fn load(tokenizer_bytes: &Vec<u8>, max_length: usize) -> (r: Result<
        TokenizerWrapper,
        AppError,
    >)
        ensures
            r matches Ok(w) ==> w.max_len() == max_length,
            r matches Err(e) ==> e is TokenizationError,
    {
        match tokenizer_from_bytes(tokenizer_bytes) {
            Ok(tokenizer) => Ok(TokenizerWrapper { tokenizer, max_length }),
            Err(m) => Err(AppError::TokenizationError(m)),
        }
    }

    /// Encode every `(query, document)` pair and pad the encodings into one
    /// batch: one row per document, columns capped at the length limit, the
    /// padding zero and the prefix kept.
    pub fn tokenize_pairs(&self, query: &str, documents: &Vec<String>) -> (r: Result<
        TokenBatch,
        AppError,
    >)
        ensures
            documents@.len() == 0 ==> (r matches Err(AppError::TokenizationError(m)) && m@ == (
            "Documents list cannot be empty")@),
            r matches Ok(b) ==> padded_shape(b, documents@.len() as int, self.max_len()),
            r matches Err(e) ==> e is TokenizationError,
    {
        if documents.len() == 0 {
            return Err(
                AppError::TokenizationError(String::from_str("Documents list cannot be empty")),
            );
        }
        let n = documents.len();
        let mut encodings: Vec<EncodedText> = Vec::new();
        for i in 0..n
            invariant
                n == documents@.len(),
                encodings@.len() == i,
                forall|k: int| 0 <= k < i ==> (#[trigger] encodings@[k]).wf(),
        {
            match encode_pair(&self.tokenizer, query, documents[i].as_str()) {
                Ok(e) => encodings.push(e),
                Err(m) => {
                    return Err(AppError::TokenizationError(m));
                },
            }
        }
        let batch = pad_batch(&encodings, self.max_length);
        proof {
            lemma_batch_cols_bounds(encodings@, self.max_len());
            let cols = spec_batch_cols(encodings@, self.max_len());
            assert(batch.wf(documents@.len() as int, cols));
            assert(padded_shape(batch, documents@.len() as int, self.max_len()));
        }
        Ok(batch)
    }

    /// Encode every text on its own and pad the encodings into one batch,
    /// with the type ids all zero, as the embedding evaluator expects.
    pub fn encode_texts(&self, texts: &Vec<String>) -> (r: Result<TokenBatch, AppError>)
        ensures
            texts@.len() == 0 ==> (r matches Err(AppError::TokenizationError(m)) && m@ == (
            "Documents list cannot be empty")@),
            r matches Ok(b) ==> padded_shape_zero_types(b, texts@.len() as int, self.max_len()),
            r matches Err(e) ==> e is TokenizationError,
    {
        if texts.len() == 0 {
            return Err(
                AppError::TokenizationError(String::from_str("Documents list cannot be empty")),
            );
        }
        let n = texts.len();
        let mut encodings: Vec<EncodedText> = Vec::new();
        for i in 0..n
            invariant
                n == texts@.len(),
                encodings@.len() == i,
                forall|k: int| 0 <= k < i ==> (#[trigger] encodings@[k]).wf(),
        {
            match encode_single(&self.tokenizer, texts[i].as_str()) {
                Ok(e) => encodings.push(e),
                Err(m) => {
                    return Err(AppError::TokenizationError(m));
                },
            }
        }
        let mut batch = pad_batch(&encodings, self.max_length);
        proof {
            lemma_batch_cols_bounds(encodings@, self.max_len());
        }
        let ghost cols = spec_batch_cols(encodings@, self.max_len());
        let zero_cols = if batch.ids.len() > 0 {
            batch.ids[0].len()
        } else {
            0
        };
        assert(zero_cols as int == cols);
        batch.type_ids = zero_rows(texts.len(), zero_cols);
        proof {
            assert(batch.wf(texts@.len() as int, cols));
            assert(forall|i: int, j: int|
                0 <= i < texts@.len() && 0 <= j < cols ==> batch.type_ids@[i]@[j] == 0);
            assert(padded_shape_zero_types(batch, texts@.len() as int, self.max_len()));
        }
        Ok(batch)
    }
}

/// The column count of a batch is never negative and never above the cap
/// (once the batch is non-empty and the cap non-negative).
proof fn lemma_batch_cols_bounds(encs: Seq<EncodedText>, max_length: int)
    requires
        max_length >= 0,
    ensures
        0 <= spec_batch_cols(encs, max_length),
        spec_batch_cols(encs, max_length) <= max_length || encs.len() == 0,
    decreases encs.len(),
{
    if encs.len() > 0 {
        lemma_batch_cols_bounds(encs.drop_last(), max_length);
    }
}

} // verus!
