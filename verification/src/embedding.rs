//! Embedding providers: endpoint, request bodies and replies.

use crate::config::LlmConfig;
use crate::error::{ErrorView, MnemosError, Outcome};
use crate::json::{
    field, items_view, lemma_lookup_push, list, no_fields, Json, JsonNumber, JsonView, ObjectBuilder,
};
use crate::text::{strip_trailing, views, without_trailing};
use vstd::prelude::*;

verus! {

/// Client settings of an endpoint that speaks the embeddings protocol.
#[derive(Debug)]
pub struct OpenAiEmbeddingProvider {
    pub api_key: String,
    pub base_url: String,
    pub model: String,
}

/// The body of an embeddings request.
pub open spec fn embed_body_view(model: Seq<char>, input: JsonView) -> JsonView {
    JsonView::Object(no_fields().push(("model"@, JsonView::Text(model))).push(("input"@, input)))
}

/// Texts as JSON.
pub open spec fn text_list(texts: Seq<Seq<char>>) -> Seq<JsonView> {
    texts.map_values(|t: Seq<char>| JsonView::Text(t))
}

impl OpenAiEmbeddingProvider {
    /// Builds from explicit parts; slashes at the end of `base_url` are dropped.
    pub fn new(embedding_model: &str, base_url: &str, api_key: &str) -> (r: OpenAiEmbeddingProvider)
        ensures
            r.model@ == embedding_model@,
            r.base_url@ == without_trailing(base_url@, '/'),
            r.api_key@ == api_key@,
            r.base_url@.len() > 0 ==> r.base_url@.last() != '/',
    {
        OpenAiEmbeddingProvider {
            api_key: api_key.to_owned(),
            base_url: strip_trailing(base_url, '/'),
            model: embedding_model.to_owned(),
        }
    }

    /// Builds from the embedding settings.
    pub fn from_config(config: &LlmConfig) -> (r: OpenAiEmbeddingProvider)
        ensures
            r.model@ == config.embedding_model@,
            r.base_url@ == without_trailing(config.embedding_base_url@, '/'),
            r.api_key@ == config.api_key@,
    {
        OpenAiEmbeddingProvider::new(
            config.embedding_model.as_str(),
            config.embedding_base_url.as_str(),
            config.api_key.as_str(),
        )
    }

    /// The model that requests name.
    pub fn model(&self) -> (r: &str)
        ensures
            r@ == self.model@,
    {
        self.model.as_str()
    }

    /// The base URL, without a slash at its end.
    pub fn base_url(&self) -> (r: &str)
        ensures
            r@ == self.base_url@,
    {
        self.base_url.as_str()
    }

    /// The URL of the embeddings endpoint.
    pub fn embeddings_url(&self) -> (r: String)
        ensures
            r@ == self.base_url@ + "/embeddings"@,
    {
        self.base_url.clone().concat("/embeddings")
    }

    /// The bearer token of requests; none without a key.
    pub fn bearer(&self) -> (r: Option<&str>)
        ensures
            match r {
                Some(t) => t@ == self.api_key@ && t@.len() > 0,
                None => self.api_key@.len() == 0,
            },
    {
        let key = self.api_key.as_str();
        if key.is_empty() {
            None
        } else {
            Some(key)
        }
    }

    /// The body of a request for one text.
    pub fn text_body(&self, text: &str) -> (r: Json)
        ensures
            r@ == embed_body_view(self.model@, JsonView::Text(text@)),
    {
        ObjectBuilder::new().with("model", Json::text(self.model.as_str())).with(
            "input",
            Json::text(text),
        ).done()
    }

    /// The body of a request for many texts.
    pub fn batch_body(&self, texts: &Vec<String>) -> (r: Json)
        ensures
            r@ == embed_body_view(self.model@, JsonView::Array(text_list(views(texts@)))),
    {
        let mut items: Vec<Json> = Vec::new();
        let mut i: usize = 0;
        while i < texts.len()
            invariant
                i <= texts@.len(),
                items@.len() == i,
                forall|j: int|
                    0 <= j < i ==> (#[trigger] items@[j])@ == JsonView::Text(texts@[j]@),
            decreases texts@.len() - i,
        {
            items.push(Json::text(texts[i].as_str()));
            i += 1;
        }
        assert(items_view(items@) =~= text_list(views(texts@)));
        ObjectBuilder::new().with("model", Json::text(self.model.as_str())).with(
            "input",
            list(items),
        ).done()
    }
}

/// The failure of a request that the server refused.
pub fn refused(status: &str, body: &str) -> (r: MnemosError)
    ensures
        r@ == ErrorView::Embedding("HTTP "@ + status@ + ": "@ + body@),
{
    MnemosError::Embedding("HTTP ".to_owned().concat(status).concat(": ").concat(body))
}

/// A list of numbers.
pub open spec fn numbers_of(j: JsonView) -> Option<Seq<JsonNumber>> {
    match j {
        JsonView::Array(items) => numbers_in(items),
        _ => None,
    }
}

/// The items as numbers, where all of them are.
pub open spec fn numbers_in(items: Seq<JsonView>) -> Option<Seq<JsonNumber>>
    decreases items.len(),
{
    if items.len() == 0 {
        Some(Seq::empty())
    } else {
        match (numbers_in(items.drop_last()), items.last()) {
            (Some(before), JsonView::Number(n)) => Some(before.push(n)),
            _ => None,
        }
    }
}

proof fn lemma_not_numbers(items: Seq<JsonView>, i: int)
    requires
        0 <= i <= items.len(),
        numbers_in(items.take(i)) is None,
    ensures
        numbers_in(items) is None,
    decreases items.len() - i,
{
    if i == items.len() {
        assert(items.take(i) =~= items);
    } else {
        assert(items.take(i + 1).drop_last() =~= items.take(i));
        lemma_not_numbers(items, i + 1);
    }
}

fn read_numbers(value: &Json) -> (r: Option<Vec<JsonNumber>>)
    ensures
        match r {
            Some(v) => numbers_of(value@) == Some(v@),
            None => numbers_of(value@) is None,
        },
{
    let items = match value.as_array() {
        Some(items) => items,
        None => {
            return None;
        },
    };
    let ghost all = items_view(items@);
    let mut out: Vec<JsonNumber> = Vec::new();
    let mut i: usize = 0;
    while i < items.len()
        invariant
            i <= items@.len(),
            all == items_view(items@),
            value@ == JsonView::Array(all),
            numbers_in(all.take(i as int)) == Some(out@),
        decreases items@.len() - i,
    {
        assert(all.take(i + 1).drop_last() =~= all.take(i as int));
        assert(all.take(i + 1).last() == items@[i as int]@);
        match items[i].as_number() {
            Some(n) => {
                out.push(n);
            },
            None => {
                proof {
                    lemma_not_numbers(all, i + 1);
                }
                return None;
            },
        }
        i += 1;
    }
    assert(all.take(i as int) =~= all);
    Some(out)
}

/// The embedding of one entry.
pub open spec fn embedding_in(entry: JsonView) -> Option<Seq<JsonNumber>> {
    match field(entry, "embedding"@) {
        Some(v) => numbers_of(v),
        None => None,
    }
}

/// The embeddings of the entries, where all of them have one.
pub open spec fn embeddings_in(entries: Seq<JsonView>) -> Option<Seq<Seq<JsonNumber>>>
    decreases entries.len(),
{
    if entries.len() == 0 {
        Some(Seq::empty())
    } else {
        match (embeddings_in(entries.drop_last()), embedding_in(entries.last())) {
            (Some(before), Some(e)) => Some(before.push(e)),
            _ => None,
        }
    }
}

proof fn lemma_not_embeddings(entries: Seq<JsonView>, i: int)
    requires
        0 <= i <= entries.len(),
        embeddings_in(entries.take(i)) is None,
    ensures
        embeddings_in(entries) is None,
    decreases entries.len() - i,
{
    if i == entries.len() {
        assert(entries.take(i) =~= entries);
    } else {
        assert(entries.take(i + 1).drop_last() =~= entries.take(i));
        lemma_not_embeddings(entries, i + 1);
    }
}

/// Vectors by value.
pub open spec fn vectors(v: Seq<Vec<JsonNumber>>) -> Seq<Seq<JsonNumber>> {
    v.map_values(|x: Vec<JsonNumber>| x@)
}

/// Every embedding of a reply, in order. `shown` is the reply as text.
pub fn extract_embeddings(body: &Json, shown: &str) -> (r: Outcome<Vec<Vec<JsonNumber>>>)
    ensures
        match field(body@, "data"@) {
            Some(JsonView::Array(entries)) => if entries.len() == 0 {
                r matches Err(e) && e@ == ErrorView::Embedding("empty data[]: "@ + shown@)
            } else {
                match embeddings_in(entries) {
                    Some(all) => r matches Ok(v) && vectors(v@) == all,
                    None => r matches Err(e) && e@ == ErrorView::Embedding(
                        "missing data[].embedding: "@ + shown@,
                    ),
                }
            },
            _ => r matches Err(e) && e@ == ErrorView::Embedding("missing data[]: "@ + shown@),
        },
{
    let data = match body.get("data") {
        Some(d) => d.as_array(),
        None => None,
    };
    let data = match data {
        Some(d) => d,
        None => {
            return Err(MnemosError::Embedding("missing data[]: ".to_owned().concat(shown)));
        },
    };
    if data.len() == 0 {
        return Err(MnemosError::Embedding("empty data[]: ".to_owned().concat(shown)));
    }
    let ghost all = items_view(data@);
    let mut out: Vec<Vec<JsonNumber>> = Vec::new();
    let mut i: usize = 0;
    assert(vectors(out@) =~= Seq::empty());
    while i < data.len()
        invariant
            i <= data@.len(),
            data@.len() > 0,
            all == items_view(data@),
            field(body@, "data"@) == Some(JsonView::Array(all)),
            embeddings_in(all.take(i as int)) == Some(vectors(out@)),
        decreases data@.len() - i,
    {
        assert(all.take(i + 1).drop_last() =~= all.take(i as int));
        assert(all.take(i + 1).last() == data@[i as int]@);
        let embedding = match data[i].get("embedding") {
            Some(v) => read_numbers(v),
            None => None,
        };
        match embedding {
            Some(e) => {
                let ghost before = out@;
                let ghost added = e@;
                out.push(e);
                assert(vectors(out@) =~= vectors(before).push(added));
            },
            None => {
                proof {
                    lemma_not_embeddings(all, i + 1);
                }
                return Err(
                    MnemosError::Embedding("missing data[].embedding: ".to_owned().concat(shown)),
                );
            },
        }
        i += 1;
    }
    assert(all.take(i as int) =~= all);
    Ok(out)
}

/// The first embedding of a reply. `shown` is the reply as text.
pub fn extract_embedding(body: &Json, shown: &str) -> (r: Outcome<Vec<JsonNumber>>)
    ensures
        match field(body@, "data"@) {
            Some(JsonView::Array(entries)) => if entries.len() == 0 {
                r matches Err(e) && e@ == ErrorView::Embedding("empty data[]: "@ + shown@)
            } else {
                match embeddings_in(entries) {
                    Some(all) => all.len() == entries.len() && (r matches Ok(v) && v@ == all[0]),
                    None => r matches Err(e) && e@ == ErrorView::Embedding(
                        "missing data[].embedding: "@ + shown@,
                    ),
                }
            },
            _ => r matches Err(e) && e@ == ErrorView::Embedding("missing data[]: "@ + shown@),
        },
{
    proof {
        if let Some(JsonView::Array(entries)) = field(body@, "data"@) {
            lemma_embedding_count(entries);
        }
    }
    match extract_embeddings(body, shown) {
        Ok(all) => {
            let mut rest = all;
            assert(vectors(rest@).len() == rest@.len());
            assert(vectors(rest@)[0] == rest@[0]@);
            Ok(rest.remove(0))
        },
        Err(e) => Err(e),
    }
}

proof fn lemma_embedding_count(entries: Seq<JsonView>)
    ensures
        embeddings_in(entries) matches Some(all) ==> all.len() == entries.len(),
    decreases entries.len(),
{
    if entries.len() > 0 {
        lemma_embedding_count(entries.drop_last());
    }
}

/// The dimension of the on-device model of a name, or why there is none.
pub uninterp spec fn local_dimension(name: Seq<char>) -> Result<usize, Seq<char>>;

/// `fastembed::TextEmbedding::get_model_info`, the dimension in its result. Its
/// argument is the crate's enum, into which a name is turned by
/// `EmbeddingModel::from_str`; where no model has the name, the error is in its
/// words. Both read a static table, so the result is a function of the name alone.
/// Nothing is fetched.
#[verifier::external_body]
fn dimension_in_table(name: &str) -> (r: Result<usize, String>)
    ensures
        match r {
            Ok(d) => local_dimension(name@) == Ok::<usize, Seq<char>>(d),
            Err(e) => local_dimension(name@) == Err::<usize, Seq<char>>(e@),
        },
{
    let model: fastembed::EmbeddingModel = name.parse()?;
    fastembed::TextEmbedding::get_model_info(&model).map(|info| info.dim).map_err(|e| e.to_string())
}

/// The on-device embedding provider.
#[derive(Debug)]
pub struct LocalEmbeddingProvider {
    /// The name of its model.
    pub model: String,
    pub dimension: usize,
}

/// The name of the default on-device model.
pub const LOCAL_MODEL: &'static str = "AllMiniLML6V2";

impl LocalEmbeddingProvider {
    /// The dimension that a lookup gives, or an error of embedding.
    pub fn dimension_from(lookup: Result<usize, String>) -> (r: Outcome<usize>)
        ensures
            match lookup {
                Ok(d) => r == Ok::<usize, MnemosError>(d),
                Err(words) => r matches Err(e) && e@ == ErrorView::Embedding(
                    "unknown fastembed model: "@ + words@,
                ),
            },
    {
        match lookup {
            Ok(d) => Ok(d),
            Err(words) => Err(
                MnemosError::Embedding(
                    "unknown fastembed model: ".to_owned().concat(words.as_str()),
                ),
            ),
        }
    }

    /// The dimension of the on-device model of a name. Nothing is fetched.
    pub fn dimension_of(name: &str) -> (r: Outcome<usize>)
        ensures
            match local_dimension(name@) {
                Ok(d) => r == Ok::<usize, MnemosError>(d),
                Err(words) => r matches Err(e) && e@ == ErrorView::Embedding(
                    "unknown fastembed model: "@ + words,
                ),
            },
    {
        LocalEmbeddingProvider::dimension_from(dimension_in_table(name))
    }

    /// The settings of the provider for the model of a name.
    pub fn with_model(name: &str) -> (r: Outcome<LocalEmbeddingProvider>)
        ensures
            match local_dimension(name@) {
                Ok(d) => r matches Ok(p) && p.model@ == name@ && p.dimension == d,
                Err(words) => r matches Err(e) && e@ == ErrorView::Embedding(
                    "unknown fastembed model: "@ + words,
                ),
            },
    {
        match LocalEmbeddingProvider::dimension_of(name) {
            Ok(dimension) => Ok(LocalEmbeddingProvider { model: name.to_owned(), dimension }),
            Err(e) => Err(e),
        }
    }

    /// The dimension of the provider's vectors.
    pub fn dimension(&self) -> (r: usize)
        ensures
            r == self.dimension,
    {
        self.dimension
    }
}

/// A vector is read whole or not at all: number by number in order, and not where
/// one of its items is none.
pub proof fn vectors_are_read_whole(items: Seq<JsonView>)
    ensures
        numbers_in(items) is Some <==> forall|i: int|
            0 <= i < items.len() ==> (#[trigger] items[i]) is Number,
        numbers_in(items) matches Some(v) ==> v.len() == items.len() && forall|i: int|
            0 <= i < items.len() ==> items[i] == JsonView::Number(#[trigger] v[i]),
    decreases items.len(),
{
    if items.len() > 0 {
        let fewer = items.drop_last();
        vectors_are_read_whole(fewer);
        if numbers_in(items) is Some {
            assert forall|i: int| 0 <= i < items.len() implies (#[trigger] items[i]) is Number by {
                if i < fewer.len() {
                    assert(fewer[i] == items[i]);
                }
            }
            let v = numbers_in(items)->0;
            assert forall|i: int| 0 <= i < items.len() implies items[i] == JsonView::Number(
                #[trigger] v[i],
            ) by {
                if i < fewer.len() {
                    assert(fewer[i] == items[i]);
                }
            }
        } else if forall|i: int| 0 <= i < items.len() ==> (#[trigger] items[i]) is Number {
            assert forall|i: int| 0 <= i < fewer.len() implies (#[trigger] fewer[i]) is Number by {
                assert(fewer[i] == items[i]);
            }
            assert(items[items.len() - 1] is Number);
        }
    }
}

/// Embeddings come in the order of the reply, one for each entry, or there are none
/// at all.
pub proof fn embeddings_keep_their_order(entries: Seq<JsonView>)
    ensures
        embeddings_in(entries) is Some <==> forall|i: int|
            0 <= i < entries.len() ==> embedding_in(#[trigger] entries[i]) is Some,
        embeddings_in(entries) matches Some(all) ==> all.len() == entries.len() && forall|i: int|
            0 <= i < entries.len() ==> embedding_in(entries[i]) == Some(#[trigger] all[i]),
    decreases entries.len(),
{
    if entries.len() > 0 {
        let fewer = entries.drop_last();
        embeddings_keep_their_order(fewer);
        if embeddings_in(entries) is Some {
            let all = embeddings_in(entries)->0;
            assert forall|i: int| 0 <= i < entries.len() implies embedding_in(
                #[trigger] entries[i],
            ) is Some by {
                if i < fewer.len() {
                    assert(fewer[i] == entries[i]);
                }
            }
            assert forall|i: int| 0 <= i < entries.len() implies embedding_in(entries[i]) == Some(
                #[trigger] all[i],
            ) by {
                if i < fewer.len() {
                    assert(fewer[i] == entries[i]);
                }
            }
        } else if forall|i: int|
            0 <= i < entries.len() ==> embedding_in(#[trigger] entries[i]) is Some {
            assert forall|i: int| 0 <= i < fewer.len() implies embedding_in(
                #[trigger] fewer[i],
            ) is Some by {
                assert(fewer[i] == entries[i]);
            }
            assert(embedding_in(entries[entries.len() - 1]) is Some);
        }
    }
}

/// A request names the model, and carries every text in order.
pub proof fn requests_carry_their_texts(model: Seq<char>, texts: Seq<Seq<char>>)
    ensures
        ({
            let body = embed_body_view(model, JsonView::Array(text_list(texts)));
            &&& field(body, "model"@) == Some(JsonView::Text(model))
            &&& field(body, "input"@) == Some(
                JsonView::Array(
                    Seq::new(texts.len(), |i: int| JsonView::Text(texts[i])),
                ),
            )
        }),
{
    broadcast use lemma_lookup_push;

    reveal_strlit("model");
    reveal_strlit("input");
    assert("model"@[0] == 'm');
    assert("input"@[0] == 'i');
    assert(text_list(texts) =~= Seq::new(texts.len(), |i: int| JsonView::Text(texts[i])));
}

} // verus!
