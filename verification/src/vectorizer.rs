//! Fitting a vocabulary with document frequencies on a corpus, and
//! counting the known tokens of new messages.
//!
//! Everything here is counted in integers. The weight of a token is a
//! function of two of these counts, the number of documents and the
//! token's document frequency; a feature is a term count times the weight.

use crate::error::ErrorKind;
use crate::text::{clean_text, normalized, texts, tokenize, tokens_of};
use crate::vocabulary::Vocabulary;
use vstd::prelude::*;

verus! {

/// The tokens of a message: the words of its normal form.
pub open spec fn message_tokens(message: Seq<char>) -> Seq<Seq<char>> {
    tokens_of(normalized(message))
}

/// The tokens of each message of a corpus.
pub open spec fn corpus_tokens(messages: Seq<Seq<char>>) -> Seq<Seq<Seq<char>>> {
    messages.map_values(|m: Seq<char>| message_tokens(m))
}

/// The distinct tokens of `tokens`, each at the place of its first
/// occurrence.
pub open spec fn first_seen(tokens: Seq<Seq<char>>) -> Seq<Seq<char>>
    decreases tokens.len(),
{
    if tokens.len() == 0 {
        Seq::empty()
    } else {
        let before = first_seen(tokens.drop_last());
        if before.contains(tokens.last()) {
            before
        } else {
            before.push(tokens.last())
        }
    }
}

/// The number of documents that hold `token` at least once.
pub open spec fn document_frequency(docs: Seq<Seq<Seq<char>>>, token: Seq<char>) -> nat
    decreases docs.len(),
{
    if docs.len() == 0 {
        0
    } else {
        document_frequency(docs.drop_last(), token) + if docs.last().contains(token) {
            1nat
        } else {
            0nat
        }
    }
}

/// How often `token` occurs in `doc`.
pub open spec fn term_frequency(doc: Seq<Seq<char>>, token: Seq<char>) -> nat
    decreases doc.len(),
{
    if doc.len() == 0 {
        0
    } else {
        term_frequency(doc.drop_last(), token) + if doc.last() == token {
            1nat
        } else {
            0nat
        }
    }
}

/// The row of a document over a vocabulary: for each index, how often its
/// token occurs in the document.
pub open spec fn count_row(vocabulary: Seq<Seq<char>>, doc: Seq<Seq<char>>) -> Seq<nat> {
    Seq::new(vocabulary.len(), |j: int| term_frequency(doc, vocabulary[j]))
}

/// The numbers of a row of counts.
pub open spec fn row_view(row: Seq<usize>) -> Seq<nat> {
    row.map_values(|c: usize| c as nat)
}

/// A sequence with one more element holds what it held before, and that
/// element.
pub proof fn lemma_contains_push<A>(s: Seq<A>, x: A, y: A)
    ensures
        s.push(x).contains(y) <==> s.contains(y) || x == y,
{
    if s.contains(y) {
        let i = choose|i: int| 0 <= i < s.len() && s[i] == y;
        assert(s.push(x)[i] == y);
    }
    if x == y {
        assert(s.push(x)[s.len() as int] == y);
    }
}

/// What one more token does to the distinct tokens.
pub proof fn lemma_first_seen_push(tokens: Seq<Seq<char>>, token: Seq<char>)
    ensures
        first_seen(tokens.push(token)) == if first_seen(tokens).contains(token) {
            first_seen(tokens)
        } else {
            first_seen(tokens).push(token)
        },
{
    assert(tokens.push(token).drop_last() =~= tokens);
}

/// The distinct tokens of a list are the tokens that occur in it.
pub proof fn lemma_first_seen_contains(tokens: Seq<Seq<char>>, token: Seq<char>)
    ensures
        first_seen(tokens).contains(token) <==> tokens.contains(token),
    decreases tokens.len(),
{
    if tokens.len() > 0 {
        let before = tokens.drop_last();
        lemma_first_seen_contains(before, token);
        lemma_first_seen_contains(before, tokens.last());
        assert(before.push(tokens.last()) =~= tokens);
        lemma_contains_push(before, tokens.last(), token);
        lemma_contains_push(first_seen(before), tokens.last(), token);
    }
}

/// No token occurs twice among the distinct tokens of a list.
pub proof fn lemma_first_seen_no_duplicates(tokens: Seq<Seq<char>>)
    ensures
        first_seen(tokens).no_duplicates(),
    decreases tokens.len(),
{
    if tokens.len() > 0 {
        lemma_first_seen_no_duplicates(tokens.drop_last());
    }
}

/// Tokens that follow change no index: the distinct tokens of a list are
/// the first of the distinct tokens of any list that it starts.
pub proof fn lemma_first_seen_extends(tokens: Seq<Seq<char>>, more: Seq<Seq<char>>)
    ensures
        first_seen(tokens).is_prefix_of(first_seen(tokens + more)),
    decreases more.len(),
{
    if more.len() == 0 {
        assert(tokens + more =~= tokens);
    } else {
        let shorter = tokens + more.drop_last();
        lemma_first_seen_extends(tokens, more.drop_last());
        assert(tokens + more =~= shorter.push(more.last()));
        lemma_first_seen_push(shorter, more.last());
    }
}

/// What one more document does to a document frequency.
pub proof fn lemma_document_frequency_push(
    docs: Seq<Seq<Seq<char>>>,
    doc: Seq<Seq<char>>,
    token: Seq<char>,
)
    ensures
        document_frequency(docs.push(doc), token) == document_frequency(docs, token) + if doc.contains(
            token,
        ) {
            1nat
        } else {
            0nat
        },
{
    assert(docs.push(doc).drop_last() =~= docs);
}

/// A token occurs in no more documents than there are.
pub proof fn lemma_document_frequency_bounded(docs: Seq<Seq<Seq<char>>>, token: Seq<char>)
    ensures
        document_frequency(docs, token) <= docs.len(),
    decreases docs.len(),
{
    if docs.len() > 0 {
        lemma_document_frequency_bounded(docs.drop_last(), token);
    }
}

/// A token that occurs in none of the documents, taken together, has
/// document frequency zero.
pub proof fn lemma_document_frequency_absent(docs: Seq<Seq<Seq<char>>>, token: Seq<char>)
    requires
        !docs.flatten().contains(token),
    ensures
        document_frequency(docs, token) == 0,
    decreases docs.len(),
{
    if docs.len() > 0 {
        let before = docs.drop_last();
        assert(before.push(docs.last()) =~= docs);
        before.lemma_flatten_push(docs.last());
        let flat = before.flatten();
        if flat.contains(token) {
            let i = choose|i: int| 0 <= i < flat.len() && flat[i] == token;
            assert((flat + docs.last())[i] == token);
        }
        if docs.last().contains(token) {
            let i = choose|i: int| 0 <= i < docs.last().len() && docs.last()[i] == token;
            assert((flat + docs.last())[flat.len() + i] == token);
        }
        lemma_document_frequency_absent(before, token);
    }
}

/// A token that occurs in the documents, taken together, occurs in at
/// least one of them.
pub proof fn lemma_document_frequency_positive(docs: Seq<Seq<Seq<char>>>, token: Seq<char>)
    requires
        docs.flatten().contains(token),
    ensures
        document_frequency(docs, token) >= 1,
    decreases docs.len(),
{
    if docs.len() > 0 {
        let before = docs.drop_last();
        assert(before.push(docs.last()) =~= docs);
        before.lemma_flatten_push(docs.last());
        let flat = before.flatten();
        let i = choose|i: int| 0 <= i < docs.flatten().len() && docs.flatten()[i] == token;
        if i < flat.len() {
            assert(flat[i] == token);
            lemma_document_frequency_positive(before, token);
        } else {
            assert(docs.last()[i - flat.len()] == token);
        }
    }
}

/// What one more token does to a term frequency.
pub proof fn lemma_term_frequency_push(doc: Seq<Seq<char>>, last: Seq<char>, token: Seq<char>)
    ensures
        term_frequency(doc.push(last), token) == term_frequency(doc, token) + if last == token {
            1nat
        } else {
            0nat
        },
{
    assert(doc.push(last).drop_last() =~= doc);
}

/// A token occurs in a document no more often than the document has tokens.
pub proof fn lemma_term_frequency_bounded(doc: Seq<Seq<char>>, token: Seq<char>)
    ensures
        term_frequency(doc, token) <= doc.len(),
    decreases doc.len(),
{
    if doc.len() > 0 {
        lemma_term_frequency_bounded(doc.drop_last(), token);
    }
}

/// A token that a document does not hold has term frequency zero there.
pub proof fn lemma_term_frequency_absent(doc: Seq<Seq<char>>, token: Seq<char>)
    requires
        !doc.contains(token),
    ensures
        term_frequency(doc, token) == 0,
    decreases doc.len(),
{
    if doc.len() > 0 {
        let before = doc.drop_last();
        assert(doc[doc.len() - 1] == doc.last());
        if before.contains(token) {
            let i = choose|i: int| 0 <= i < before.len() && before[i] == token;
            assert(doc[i] == token);
        }
        lemma_term_frequency_absent(before, token);
    }
}

/// The empty message has no tokens, so every term frequency is zero in it.
pub proof fn lemma_empty_message_counts_nothing(token: Seq<char>)
    ensures
        message_tokens(Seq::<char>::empty()) == Seq::<Seq<char>>::empty(),
        term_frequency(message_tokens(Seq::<char>::empty()), token) == 0,
{
    reveal(Seq::filter);
    assert(normalized(Seq::<char>::empty()) =~= Seq::<char>::empty());
}

/// The width that a row of counts or of weights must have: the size of the
/// vocabulary. Fails with `DimensionMismatch` on any other width.
pub fn check_width(width: usize, vocabulary_size: usize) -> (r: Result<(), ErrorKind>)
    ensures
        r == if width == vocabulary_size {
            Ok::<(), ErrorKind>(())
        } else {
            Err::<(), ErrorKind>(ErrorKind::DimensionMismatch)
        },
{
    if width == vocabulary_size {
        Ok(())
    } else {
        Err(ErrorKind::DimensionMismatch)
    }
}

/// How often each token of `vocabulary` occurs among `tokens`. Tokens that
/// the vocabulary does not hold are passed over.
pub fn count_terms(vocabulary: &Vocabulary, tokens: &Vec<String>) -> (row: Vec<usize>)
    requires
        vocabulary.wf(),
    ensures
        row_view(row@) == count_row(vocabulary@, texts(tokens@)),
{
    let ghost doc = texts(tokens@);
    let width = vocabulary.len();
    let mut row: Vec<usize> = Vec::new();
    let mut j: usize = 0;
    while j < width
        invariant
            j <= width,
            row.len() == j,
            forall|c: int| 0 <= c < j ==> #[trigger] row@[c] == 0,
        decreases width - j,
    {
        row.push(0);
        j += 1;
    }
    let m = tokens.len();
    let mut k: usize = 0;
    assert(doc.take(0) =~= Seq::<Seq<char>>::empty());
    while k < m
        invariant
            k <= m,
            m == tokens.len(),
            doc == texts(tokens@),
            vocabulary.wf(),
            row.len() == vocabulary@.len(),
            forall|c: int|
                0 <= c < row.len() ==> #[trigger] row@[c] == term_frequency(
                    doc.take(k as int),
                    vocabulary@[c],
                ),
        decreases m - k,
    {
        let found = vocabulary.index_of(tokens[k].as_str());
        proof {
            assert(doc.take(k + 1) =~= doc.take(k as int).push(doc[k as int]));
            assert forall|c: int| 0 <= c < row.len() implies term_frequency(
                doc.take(k + 1),
                #[trigger] vocabulary@[c],
            ) == term_frequency(doc.take(k as int), vocabulary@[c]) + if doc[k as int]
                == vocabulary@[c] {
                1nat
            } else {
                0nat
            } by {
                lemma_term_frequency_push(doc.take(k as int), doc[k as int], vocabulary@[c]);
            }
        }
        match found {
            Some(index) => {
                proof {
                    lemma_term_frequency_bounded(doc.take(k as int), vocabulary@[index as int]);
                }
                let count = row[index];
                row.set(index, count + 1);
            },
            None => {},
        }
        k += 1;
    }
    assert(doc.take(m as int) =~= doc);
    assert(row_view(row@) =~= count_row(vocabulary@, doc));
    row
}

/// For each message, how often each token of `vocabulary` occurs among the
/// tokens of the message.
pub fn term_counts(vocabulary: &Vocabulary, messages: &[String]) -> (rows: Vec<Vec<usize>>)
    requires
        vocabulary.wf(),
    ensures
        rows.len() == messages.len(),
        forall|i: int|
            0 <= i < rows.len() ==> row_view((#[trigger] rows@[i])@) == count_row(
                vocabulary@,
                message_tokens(messages@[i]@),
            ),
        forall|i: int| 0 <= i < rows.len() ==> (#[trigger] rows@[i]).len() == vocabulary@.len(),
{
    let n = messages.len();
    let mut rows: Vec<Vec<usize>> = Vec::new();
    let mut i: usize = 0;
    while i < n
        invariant
            i <= n,
            n == messages.len(),
            vocabulary.wf(),
            rows.len() == i,
            forall|r: int|
                0 <= r < i ==> row_view((#[trigger] rows@[r])@) == count_row(
                    vocabulary@,
                    message_tokens(messages@[r]@),
                ),
            forall|r: int| 0 <= r < i ==> (#[trigger] rows@[r]).len() == vocabulary@.len(),
        decreases n - i,
    {
        let cleaned = clean_text(messages[i].as_str());
        let tokens = tokenize(cleaned.as_str());
        let row = count_terms(vocabulary, &tokens);
        assert(row@.len() == row_view(row@).len());
        rows.push(row);
        i += 1;
    }
    rows
}

/// What fitting on a corpus yields, as mathematical values.
pub ghost struct VectorizerView {
    /// The tokens by index.
    pub vocabulary: Seq<Seq<char>>,
    /// For each index, the number of documents that hold its token.
    pub document_frequency: Seq<nat>,
    /// The number of documents of the corpus.
    pub documents: nat,
}

/// A vocabulary with the document frequency of each token and the size of
/// the corpus that they were counted on.
#[derive(Clone, Debug)]
pub struct TfIdfVectorizer {
    vocabulary: Vocabulary,
    doc_freq: Vec<usize>,
    n_docs: usize,
}

impl View for TfIdfVectorizer {
    type V = VectorizerView;

    closed spec fn view(&self) -> VectorizerView {
        VectorizerView {
            vocabulary: self.vocabulary@,
            document_frequency: row_view(self.doc_freq@),
            documents: self.n_docs as nat,
        }
    }
}

impl TfIdfVectorizer {
    /// No token occurs twice, every token has its document frequency, and
    /// the indices fit the machine.
    pub open spec fn wf(&self) -> bool {
        &&& self@.vocabulary.no_duplicates()
        &&& self@.vocabulary.len() <= usize::MAX
        &&& self@.document_frequency.len() == self@.vocabulary.len()
    }

    /// Builds the vocabulary of `messages` and counts, for each token, the
    /// documents that hold it.
    ///
    /// Each message is normalised and split at whitespace. A token gets the
    /// next free index when it is first seen, the messages taken in the
    /// order given. An empty message counts as a document without tokens.
    pub fn fit(messages: &[String]) -> (v: Self)
        ensures
            v.wf(),
            v@.documents == messages@.len(),
            v@.vocabulary == first_seen(corpus_tokens(texts(messages@)).flatten()),
            forall|j: int|
                0 <= j < v@.vocabulary.len() ==> #[trigger] v@.document_frequency[j]
                    == document_frequency(corpus_tokens(texts(messages@)), v@.vocabulary[j]),
            forall|j: int|
                0 <= j < v@.vocabulary.len() ==> 1 <= #[trigger] v@.document_frequency[j]
                    <= v@.documents,
    {
        let ghost docs = corpus_tokens(texts(messages@));
        let n = messages.len();
        let mut vocabulary = Vocabulary::new();
        let mut doc_freq: Vec<usize> = Vec::new();
        // last_doc[j] is one more than the number of the last document that
        // was counted for the token j.
        let mut last_doc: Vec<usize> = Vec::new();
        let mut i: usize = 0;
        assert(docs.take(0) =~= Seq::<Seq<Seq<char>>>::empty());
        while i < n
            invariant
                i <= n,
                n == messages.len(),
                docs == corpus_tokens(texts(messages@)),
                vocabulary.wf(),
                vocabulary@ == first_seen(docs.take(i as int).flatten()),
                doc_freq.len() == vocabulary@.len(),
                last_doc.len() == vocabulary@.len(),
                forall|j: int|
                    0 <= j < vocabulary@.len() ==> #[trigger] doc_freq@[j] == document_frequency(
                        docs.take(i as int),
                        vocabulary@[j],
                    ),
                forall|j: int| 0 <= j < vocabulary@.len() ==> #[trigger] last_doc@[j] <= i,
            decreases n - i,
        {
            let cleaned = clean_text(messages[i].as_str());
            let tokens = tokenize(cleaned.as_str());
            let ghost doc = docs[i as int];
            let ghost seen = docs.take(i as int);
            let ghost flat = seen.flatten();
            let m = tokens.len();
            let mut k: usize = 0;
            assert(flat + doc.take(0) =~= flat);
            assert(doc.take(0) =~= Seq::<Seq<char>>::empty());
            while k < m
                invariant
                    k <= m,
                    m == tokens.len(),
                    i < n,
                    doc == texts(tokens@),
                    seen.len() == i,
                    flat == seen.flatten(),
                    vocabulary.wf(),
                    vocabulary@ == first_seen(flat + doc.take(k as int)),
                    doc_freq.len() == vocabulary@.len(),
                    last_doc.len() == vocabulary@.len(),
                    forall|j: int|
                        0 <= j < vocabulary@.len() ==> #[trigger] doc_freq@[j]
                            == document_frequency(seen, vocabulary@[j]) + if doc.take(
                            k as int,
                        ).contains(vocabulary@[j]) {
                            1nat
                        } else {
                            0nat
                        },
                    forall|j: int|
                        0 <= j < vocabulary@.len() ==> #[trigger] last_doc@[j] <= i + 1 && (
                        last_doc@[j] == i + 1 <==> doc.take(k as int).contains(vocabulary@[j])),
                decreases m - k,
            {
                let ghost known = vocabulary@;
                let ghost token = doc[k as int];
                let index = vocabulary.insert(tokens[k].as_str());
                proof {
                    assert(doc.take(k + 1) =~= doc.take(k as int).push(token));
                    assert(flat + doc.take(k + 1) =~= (flat + doc.take(k as int)).push(token));
                    lemma_first_seen_push(flat + doc.take(k as int), token);
                    assert forall|j: int| 0 <= j < known.len() implies (doc.take(k + 1).contains(
                        #[trigger] known[j],
                    ) <==> doc.take(k as int).contains(known[j]) || j == index) by {
                        lemma_contains_push(doc.take(k as int), token, known[j]);
                    }
                    lemma_contains_push(doc.take(k as int), token, token);
                    if !known.contains(token) {
                        lemma_first_seen_contains(flat + doc.take(k as int), token);
                        if flat.contains(token) {
                            let w = choose|w: int| 0 <= w < flat.len() && flat[w] == token;
                            assert((flat + doc.take(k as int))[w] == token);
                        }
                        if doc.take(k as int).contains(token) {
                            let w = choose|w: int|
                                0 <= w < doc.take(k as int).len() && doc.take(k as int)[w]
                                    == token;
                            assert((flat + doc.take(k as int))[flat.len() + w] == token);
                        }
                        lemma_document_frequency_absent(seen, token);
                    } else {
                        lemma_document_frequency_bounded(seen, token);
                    }
                }
                if index == doc_freq.len() {
                    doc_freq.push(1);
                    last_doc.push(i + 1);
                } else if last_doc[index] != i + 1 {
                    let count = doc_freq[index];
                    doc_freq.set(index, count + 1);
                    last_doc.set(index, i + 1);
                }
                k += 1;
            }
            proof {
                assert(doc.take(m as int) =~= doc);
                assert(docs.take(i + 1) =~= seen.push(doc));
                seen.lemma_flatten_push(doc);
                assert forall|j: int| 0 <= j < vocabulary@.len() implies #[trigger] doc_freq@[j]
                    == document_frequency(docs.take(i + 1), vocabulary@[j]) by {
                    lemma_document_frequency_push(seen, doc, vocabulary@[j]);
                }
            }
            i += 1;
        }
        proof {
            assert(docs.take(n as int) =~= docs);
            assert forall|j: int| 0 <= j < vocabulary@.len() implies 1 <= #[trigger] doc_freq@[j]
                <= n by {
                let token = vocabulary@[j];
                assert(vocabulary@.contains(token));
                lemma_first_seen_contains(docs.flatten(), token);
                lemma_document_frequency_positive(docs, token);
                lemma_document_frequency_bounded(docs, token);
            }
        }
        TfIdfVectorizer { vocabulary, doc_freq, n_docs: n }
    }

    /// For each message, how often each token of the vocabulary occurs in
    /// it. Every row is as wide as the vocabulary; tokens that the
    /// vocabulary does not hold are passed over.
    pub fn transform(&self, messages: &[String]) -> (rows: Vec<Vec<usize>>)
        requires
            self.wf(),
        ensures
            rows.len() == messages.len(),
            forall|i: int|
                0 <= i < rows.len() ==> row_view((#[trigger] rows@[i])@) == count_row(
                    self@.vocabulary,
                    message_tokens(messages@[i]@),
                ),
            forall|i: int|
                0 <= i < rows.len() ==> (#[trigger] rows@[i]).len() == self@.vocabulary.len(),
    {
        term_counts(&self.vocabulary, messages)
    }

    /// The vocabulary.
    pub fn vocabulary(&self) -> (vocabulary: &Vocabulary)
        ensures
            vocabulary@ == self@.vocabulary,
            self.wf() ==> vocabulary.wf(),
    {
        &self.vocabulary
    }

    /// Gives up the counts and keeps the vocabulary.
    pub fn into_vocabulary(self) -> (vocabulary: Vocabulary)
        ensures
            vocabulary@ == self@.vocabulary,
            self.wf() ==> vocabulary.wf(),
    {
        self.vocabulary
    }

    /// The number of tokens of the vocabulary.
    pub fn vocabulary_size(&self) -> (size: usize)
        ensures
            size == self@.vocabulary.len(),
    {
        self.vocabulary.len()
    }

    /// For each index, the number of documents of the corpus that hold the
    /// token.
    pub fn document_frequencies(&self) -> (counts: &Vec<usize>)
        ensures
            row_view(counts@) == self@.document_frequency,
    {
        &self.doc_freq
    }

    /// The two numbers that the weight of the token `index` is made of: the
    /// number of documents, and one more than the number of documents that
    /// hold the token. The weight is the natural logarithm of the first
    /// divided by the second.
    pub fn idf_ratio(&self, index: usize) -> (ratio: Option<(u128, u128)>)
        requires
            self.wf(),
        ensures
            match ratio {
                Some((documents, holders)) => {
                    &&& index < self@.vocabulary.len()
                    &&& documents == self@.documents
                    &&& holders == 1 + self@.document_frequency[index as int]
                },
                None => index >= self@.vocabulary.len(),
            },
    {
        if index < self.doc_freq.len() {
            Some((self.n_docs as u128, self.doc_freq[index] as u128 + 1))
        } else {
            None
        }
    }

    /// The number of documents of the corpus.
    pub fn n_docs(&self) -> (n: usize)
        ensures
            n == self@.documents,
    {
        self.n_docs
    }
}

} // verus!
