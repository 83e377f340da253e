//! Query expansion through a language model.

use vstd::prelude::*;
use vstd::string::StringExecFns;
use crate::text::{
    chars_of, pieces_view, split_at_char, split_text_at, string_from_chars,
    trim, trimmed,
};

verus! {

/// Why a language model gave no reply.
#[derive(Debug)]
pub struct LlmError {
    pub message: String,
}

/// What a reply of a language model holds, as mathematical values: the text
/// it generated, or the message of its failure.
pub open spec fn reply_model(reply: Result<String, LlmError>) -> Result<Seq<char>, Seq<char>> {
    match reply {
        Ok(text) => Ok(text@),
        Err(error) => Err(error.message@),
    }
}

/// A language model that completes a prompt.
pub trait LlmClient {
    /// Whether `reply` is something that this client may answer to
    /// `prompt`. A client may say for itself what it answers; one that
    /// does not may answer anything.
    open spec fn may_reply(&self, prompt: Seq<char>, reply: Result<Seq<char>, Seq<char>>) -> bool {
        true
    }

    /// Generates text based on the given prompt.
    fn generate(&self, prompt: &str) -> (reply: Result<String, LlmError>)
        ensures
            self.may_reply(prompt@, reply_model(reply)),
    ;
}

/// Expands a query into related search terms with the help of a language
/// model.
pub struct QueryExpander<C: LlmClient> {
    pub llm_client: C,
}

/// The terms of a reply: its pieces between commas, each without the white
/// space around it, the empty ones left out; among the first `n` pieces.
pub open spec fn terms_upto(pieces: Seq<Seq<char>>, n: int) -> Seq<Seq<char>>
    decreases n,
{
    if n <= 0 {
        Seq::empty()
    } else if trimmed(pieces[n - 1]).len() == 0 {
        terms_upto(pieces, n - 1)
    } else {
        terms_upto(pieces, n - 1).push(trimmed(pieces[n - 1]))
    }
}

/// The terms of a reply.
pub open spec fn terms_of(reply: Seq<char>) -> Seq<Seq<char>> {
    terms_upto(split_text_at(reply, ','), split_text_at(reply, ',').len() as int)
}

/// The first `n` of `terms` without repetitions: each term where it first
/// occurs.
pub open spec fn distinct_upto(terms: Seq<Seq<char>>, n: int) -> Seq<Seq<char>>
    decreases n,
{
    if n <= 0 {
        Seq::empty()
    } else if distinct_upto(terms, n - 1).contains(terms[n - 1]) {
        distinct_upto(terms, n - 1)
    } else {
        distinct_upto(terms, n - 1).push(terms[n - 1])
    }
}

/// The queries that a reply expands `query` to: the query itself first,
/// then the terms of the reply in their order, nothing twice.
pub open spec fn expansion_of(query: Seq<char>, reply: Seq<char>) -> Seq<Seq<char>> {
    distinct_upto(seq![query] + terms_of(reply), (seq![query] + terms_of(reply)).len() as int)
}

/// What the expander hands back for a reply of the language model: the
/// queries that the reply expands `query` to, or the failure as it came.
pub open spec fn expansion_outcome(query: Seq<char>, reply: Result<Seq<char>, Seq<char>>) -> Result<
    Seq<Seq<char>>,
    Seq<char>,
> {
    match reply {
        Ok(text) => Ok(expansion_of(query, text)),
        Err(message) => Err(message),
    }
}

/// What a result of the expander holds, as mathematical values.
pub open spec fn expansion_model(queries: Result<Vec<String>, LlmError>) -> Result<
    Seq<Seq<char>>,
    Seq<char>,
> {
    match queries {
        Ok(list) => Ok(list.deep_view()),
        Err(error) => Err(error.message@),
    }
}

/// The prompt for `query`.
pub open spec fn prompt_of(query: Seq<char>) -> Seq<char> {
    "You are a coding assistant. Generate 3-5 short technical synonyms or related terms for the following search query to improve code search recall.\n            \n            Query: '"@
        + query
        + "'\n            \n            Return ONLY a comma-separated list of terms. Do not include the original query in the output. Do not add numbering or explanations.\n            Example:\n            Query: auth\n            Output: authentication, login, credentials, identity, oauth"@
}

/// Builds the prompt for `query`.
pub fn expansion_prompt(query: &str) -> (prompt: String)
    ensures
        prompt@ == prompt_of(query@),
{
    let mut prompt =
        "You are a coding assistant. Generate 3-5 short technical synonyms or related terms for the following search query to improve code search recall.\n            \n            Query: '".to_owned();
    prompt.append(query);
    prompt.append(
        "'\n            \n            Return ONLY a comma-separated list of terms. Do not include the original query in the output. Do not add numbering or explanations.\n            Example:\n            Query: auth\n            Output: authentication, login, credentials, identity, oauth",
    );
    prompt
}

/// Whether `term` is one of `terms`.
fn term_among(terms: &Vec<String>, term: &Vec<char>) -> (found: bool)
    ensures
        found == terms.deep_view().contains(term@),
{
    let mut k: usize = 0;
    while k < terms.len()
        invariant
            k <= terms.len(),
            forall|j: int| 0 <= j < k ==> terms@[j]@ != term@,
        decreases terms.len() - k,
    {
        let known = chars_of(terms[k].as_str());
        if same_chars(&known, term) {
            assert(terms.deep_view()[k as int] == term@);
            return true;
        }
        k += 1;
    }
    assert forall|j: int| 0 <= j < terms.deep_view().len() implies terms.deep_view()[j]
        != term@ by {
        assert(terms.deep_view()[j] == terms@[j]@);
    }
    false
}

/// Whether two vectors hold the same characters.
fn same_chars(left: &Vec<char>, right: &Vec<char>) -> (same: bool)
    ensures
        same == (left@ == right@),
{
    if left.len() != right.len() {
        return false;
    }
    let mut i: usize = 0;
    while i < left.len()
        invariant
            i <= left.len(),
            left.len() == right.len(),
            forall|j: int| 0 <= j < i ==> left@[j] == right@[j],
        decreases left.len() - i,
    {
        if left[i] != right[i] {
            return false;
        }
        i += 1;
    }
    assert(left@ =~= right@);
    true
}

/// Reads the queries that `reply` expands `query` to.
pub fn parse_expansion(query: &str, reply: &str) -> (queries: Vec<String>)
    ensures
        queries.deep_view() == expansion_of(query@, reply@),
        queries.len() >= 1,
        queries@[0]@ == query@,
{
    let pieces = split_at_char(&chars_of(reply), ',');
    let ghost parts = split_text_at(reply@, ',');
    let mut terms: Vec<Vec<char>> = Vec::new();
    let mut n: usize = 0;
    assert(pieces_view(terms@) =~= Seq::<Seq<char>>::empty());
    while n < pieces.len()
        invariant
            n <= pieces.len(),
            pieces_view(pieces@) == parts,
            pieces_view(terms@) == terms_upto(parts, n as int),
        decreases pieces.len() - n,
    {
        assert(parts[n as int] == pieces@[n as int]@);
        let term = trim(&pieces[n]);
        if term.len() > 0 {
            let ghost before = pieces_view(terms@);
            terms.push(term);
            assert(pieces_view(terms@) =~= before.push(term@));
        }
        n += 1;
    }
    assert(pieces_view(terms@) == terms_of(reply@));
    let ghost all = seq![query@] + terms_of(reply@);
    let mut queries: Vec<String> = Vec::new();
    queries.push(query.to_owned());
    assert(queries.deep_view() =~= seq![query@]);
    assert(queries.deep_view() == distinct_upto(all, 1)) by {
        assert(distinct_upto(all, 0) =~= Seq::<Seq<char>>::empty());
        assert(!distinct_upto(all, 0).contains(all[0]));
        assert(distinct_upto(all, 1) =~= seq![query@]);
    }
    let mut i: usize = 0;
    while i < terms.len()
        invariant
            i <= terms.len(),
            all == seq![query@] + pieces_view(terms@),
            queries.deep_view() == distinct_upto(all, 1 + i),
            queries.len() >= 1,
            queries@[0]@ == query@,
        decreases terms.len() - i,
    {
        assert(all[1 + i] == terms@[i as int]@);
        if !term_among(&queries, &terms[i]) {
            let term = string_from_chars(&terms[i]);
            proof {
                crate::text::lemma_deep_view_push(queries@, queries@.push(term), term);
            }
            queries.push(term);
        }
        i += 1;
    }
    queries
}

impl<C: LlmClient> QueryExpander<C> {
    /// An expander that asks `llm_client`.
    pub fn new(llm_client: C) -> (expander: Self)
        ensures
            expander.llm_client == llm_client,
    {
        QueryExpander { llm_client }
    }

    /// Expands a single query into a list of related search terms, the query
    /// itself first.
    ///
    /// The language model is asked once, with the prompt for the query.
    /// What it generates, whatever its shape, is read as a list of terms
    /// and handed back behind the query; where it fails, its failure is
    /// handed back as it came.
    pub fn expand(&self, query: &str) -> (queries: Result<Vec<String>, LlmError>)
        ensures
            exists|reply: Result<Seq<char>, Seq<char>>|
                self.llm_client.may_reply(prompt_of(query@), reply) && expansion_model(queries)
                    == #[trigger] expansion_outcome(query@, reply),
            queries matches Ok(list) ==> list.len() >= 1 && list@[0]@ == query@,
    {
        let prompt = expansion_prompt(query);
        let reply = self.llm_client.generate(prompt.as_str());
        let ghost given = reply_model(reply);
        let queries = match reply {
            Ok(text) => Ok(parse_expansion(query, text.as_str())),
            Err(e) => Err(e),
        };
        assert(self.llm_client.may_reply(prompt_of(query@), given) && expansion_model(queries)
            == expansion_outcome(query@, given));
        queries
    }
}

/// The queries to search with: what the expander returned where it was
/// asked and replied, else the query alone.
pub fn search_queries(query: &str, expansion: Option<Vec<String>>) -> (queries: Vec<String>)
    ensures
        match expansion {
            Some(list) => queries == list,
            None => queries.deep_view() == seq![query@],
        },
{
    match expansion {
        Some(list) => list,
        None => {
            let mut queries: Vec<String> = Vec::new();
            queries.push(query.to_owned());
            assert(queries.deep_view() =~= seq![query@]);
            queries
        },
    }
}

} // verus!
