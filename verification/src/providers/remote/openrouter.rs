//! OpenRouter provider: `.env` parsing, settings resolution, request headers
//! and URL, and the reading of a reply's message content.
use vstd::prelude::*;

use crate::text::{
    chars_of, find_char, find_char_from, lemma_find_char_bounds, lemma_find_char_from, push_chars,
    push_str, slice_chars, string_of, trim, trim_chars, trim_end_chars, trim_end_set, trim_set,
    TrimSet,
};

verus! {

// ---------------------------------------------------------------------------
// `.env` files
// ---------------------------------------------------------------------------

/// One `KEY=value` assignment read from a `.env` file.
#[derive(Debug)]
pub struct DotenvEntry {
    pub key: String,
    pub value: String,
}

/// The assignment a single line holds, if any. The line is trimmed; empty
/// lines, lines starting with `#` and lines without `=` hold none. The key is
/// the trimmed text before the first `=`, and must not be empty; the value is
/// the trimmed text after it, with surrounding `"` and then `'` removed.
pub open spec fn dotenv_line(line: Seq<char>) -> Seq<(Seq<char>, Seq<char>)> {
    let l = trim(line);
    let e = find_char_from(l, '=', 0);
    if l.len() == 0 || l[0] == '#' || e >= l.len() {
        seq![]
    } else {
        let key = trim(l.take(e));
        let value = trim_set(
            trim_set(trim(l.skip(e + 1)), TrimSet::Only('"')),
            TrimSet::Only('\''),
        );
        if key.len() == 0 {
            seq![]
        } else {
            seq![(key, value)]
        }
    }
}

/// The assignments of a `.env` text, line by line in order (lines are
/// separated by `\n`).
pub open spec fn dotenv_entries(s: Seq<char>) -> Seq<(Seq<char>, Seq<char>)>
    decreases s.len(),
{
    let n = find_char_from(s, '\n', 0);
    if n < s.len() {
        proof {
            lemma_find_char_bounds(s, '\n', 0);
        }
        dotenv_line(s.take(n)) + dotenv_entries(s.skip(n + 1))
    } else {
        dotenv_line(s)
    }
}

/// The (key, value) texts of parsed entries.
pub open spec fn entry_views(v: Seq<DotenvEntry>) -> Seq<(Seq<char>, Seq<char>)> {
    v.map_values(|e: DotenvEntry| (e.key@, e.value@))
}

/// The (key, value) texts of at most one entry.
pub open spec fn opt_entry_view(r: Option<DotenvEntry>) -> Seq<(Seq<char>, Seq<char>)> {
    match r {
        Some(e) => seq![(e.key@, e.value@)],
        None => seq![],
    }
}

fn parse_dotenv_line(line: &Vec<char>) -> (r: Option<DotenvEntry>)
    ensures
        opt_entry_view(r) == dotenv_line(line@),
{
    let l = trim_chars(line, TrimSet::Whitespace);
    if l.len() == 0 || l[0] == '#' {
        return None;
    }
    let e = find_char(&l, '=', 0);
    if e == l.len() {
        return None;
    }
    let before = slice_chars(&l, 0, e);
    proof {
        assert(before@ =~= l@.take(e as int));
    }
    let k = trim_chars(&before, TrimSet::Whitespace);
    if k.len() == 0 {
        return None;
    }
    let after = slice_chars(&l, e + 1, l.len());
    proof {
        assert(after@ =~= l@.skip(e + 1));
    }
    let v1 = trim_chars(&after, TrimSet::Whitespace);
    let v2 = trim_chars(&v1, TrimSet::Only('"'));
    let v3 = trim_chars(&v2, TrimSet::Only('\''));
    let entry = DotenvEntry { key: string_of(&k), value: string_of(&v3) };
    Some(entry)
}

/// Reads the assignments of a `.env` text. Setting them (only where the
/// environment does not already hold the key) is left to the caller.
pub fn parse_dotenv(text: &str) -> (entries: Vec<DotenvEntry>)
    ensures
        entry_views(entries@) == dotenv_entries(text@),
{
    let s = chars_of(text);
    let mut out: Vec<DotenvEntry> = Vec::new();
    let mut start: usize = 0;
    proof {
        assert(s@.skip(0) =~= s@);
        assert(entry_views(out@) =~= seq![]);
    }
    loop
        invariant
            start <= s.len(),
            entry_views(out@) + dotenv_entries(s@.skip(start as int)) == dotenv_entries(text@),
            s@ == text@,
        decreases s.len() - start,
    {
        let ghost rest = s@.skip(start as int);
        let ghost before = out@;
        let n = find_char(&s, '\n', start);
        let line = slice_chars(&s, start, n);
        proof {
            assert forall|x: int| 0 <= x < n - start implies rest[x] != '\n' by {
                assert(rest[x] == s@[start + x]);
            }
            if n < s.len() {
                assert(rest[n - start] == s@[n as int]);
            }
            lemma_find_char_from(rest, '\n', 0, n - start);
            assert(rest.take(n - start) =~= line@);
        }
        let r = parse_dotenv_line(&line);
        match r {
            Some(e) => {
                out.push(e);
            },
            None => {},
        }
        proof {
            assert(entry_views(out@) =~= entry_views(before) + dotenv_line(line@));
        }
        if n == s.len() {
            proof {
                assert(rest =~= line@);
                assert(dotenv_entries(rest) == dotenv_line(line@));
                assert(entry_views(out@) =~= entry_views(before) + dotenv_entries(rest));
            }
            return out;
        }
        proof {
            assert(rest.skip(n - start + 1) =~= s@.skip(n + 1));
            assert(dotenv_entries(rest) == dotenv_line(line@) + dotenv_entries(s@.skip(n + 1)));
            assert(entry_views(before) + dotenv_entries(rest) =~= entry_views(out@)
                + dotenv_entries(s@.skip(n + 1)));
        }
        start = n + 1;
    }
}

/// A `.env` text is read line by line: a first line without `\n`, then the
/// rest, give the first line's assignment followed by the rest's.
pub proof fn law_dotenv_linewise(first: Seq<char>, rest: Seq<char>)
    requires
        forall|i: int| 0 <= i < first.len() ==> first[i] != '\n',
    ensures
        dotenv_entries(first + seq!['\n'] + rest) == dotenv_line(first) + dotenv_entries(rest),
{
    let s = first + seq!['\n'] + rest;
    assert forall|x: int| 0 <= x < first.len() implies s[x] != '\n' by {
        assert(s[x] == first[x]);
    }
    assert(s[first.len() as int] == '\n');
    lemma_find_char_from(s, '\n', 0, first.len() as int);
    assert(s.take(first.len() as int) =~= first);
    assert(s.skip(first.len() + 1int) =~= rest);
}

/// The assignments of a `.env` file that take effect, in order: one whose key
/// the environment already holds (`present`, or an assignment taken earlier)
/// is skipped, so a `.env` file never overrides a variable.
pub open spec fn dotenv_applied(
    entries: Seq<(Seq<char>, Seq<char>)>,
    present: Seq<Seq<char>>,
) -> Seq<(Seq<char>, Seq<char>)>
    decreases entries.len(),
{
    if entries.len() == 0 {
        seq![]
    } else if present.contains(entries[0].0) {
        dotenv_applied(entries.skip(1), present)
    } else {
        seq![entries[0]] + dotenv_applied(entries.skip(1), present.push(entries[0].0))
    }
}

/// The texts of a list of strings.
pub open spec fn string_views(v: Seq<String>) -> Seq<Seq<char>> {
    v.map_values(|s: String| s@)
}

fn holds_key(keys: &Vec<String>, key: &str) -> (b: bool)
    ensures
        b == string_views(keys@).contains(key@),
{
    let mut i: usize = 0;
    while i < keys.len()
        invariant
            i <= keys.len(),
            forall|j: int| 0 <= j < i ==> keys@[j]@ != key@,
        decreases keys.len() - i,
    {
        if crate::text::str_eq(keys[i].as_str(), key) {
            proof {
                assert(string_views(keys@)[i as int] == key@);
            }
            return true;
        }
        i += 1;
    }
    proof {
        if string_views(keys@).contains(key@) {
            let j = choose|j: int| 0 <= j < keys@.len() && string_views(keys@)[j] == key@;
            assert(keys@[j]@ == key@);
        }
    }
    false
}

/// The assignments of a `.env` file to set, given the keys the environment
/// already holds: each key is set at most once and an existing variable is
/// never overridden.
pub fn dotenv_to_apply(entries: Vec<DotenvEntry>, present: Vec<String>) -> (r: Vec<DotenvEntry>)
    ensures
        entry_views(r@) == dotenv_applied(entry_views(entries@), string_views(present@)),
{
    let ghost all = entry_views(entries@);
    let ghost p0 = string_views(present@);
    let mut rest = entries;
    let mut keys = present;
    let mut out: Vec<DotenvEntry> = Vec::new();
    proof {
        assert(entry_views(out@) =~= seq![]);
        assert(entry_views(out@) + dotenv_applied(all, p0) =~= dotenv_applied(all, p0));
    }
    while rest.len() > 0
        invariant
            entry_views(out@) + dotenv_applied(entry_views(rest@), string_views(keys@))
                == dotenv_applied(all, p0),
        decreases rest.len(),
    {
        let ghost rv = entry_views(rest@);
        let ghost kv = string_views(keys@);
        let ghost before = entry_views(out@);
        let e = rest.remove(0);
        proof {
            assert(rv[0] == (e.key@, e.value@));
            assert(entry_views(rest@) =~= rv.skip(1));
        }
        if !holds_key(&keys, e.key.as_str()) {
            let k = e.key.clone();
            keys.push(k);
            out.push(e);
            proof {
                assert(string_views(keys@) =~= kv.push(rv[0].0));
                assert(entry_views(out@) =~= before + seq![rv[0]]);
            }
        }
    }
    proof {
        assert(entry_views(rest@) =~= seq![]);
        assert(entry_views(out@) + seq![] =~= entry_views(out@));
    }
    out
}

// ---------------------------------------------------------------------------
// Provider settings
// ---------------------------------------------------------------------------

/// The `OPENROUTER_*` environment values the provider reads, after `.env`
/// loading: `OPENROUTER_API_KEY`, `OPENROUTER_BASE_URL`, `OPENROUTER_APP_URL`,
/// `OPENROUTER_APP_NAME` (each `None` when unset).
#[derive(Debug)]
pub struct ProviderEnv {
    pub api_key: Option<String>,
    pub base_url: Option<String>,
    pub app_url: Option<String>,
    pub app_name: Option<String>,
}

/// A configured OpenRouter client.
#[derive(Debug)]
pub struct OpenRouter {
    pub base_url: String,
    pub api_key: String,
    pub app_url: Option<String>,
    pub app_name: Option<String>,
    pub model: String,
    pub timeout_secs: u64,
}

pub open spec fn missing_key_message() -> Seq<char> {
    "OpenRouter API key is required (OPENROUTER_API_KEY)"@
}

pub open spec fn default_base_url() -> Seq<char> {
    "https://openrouter.ai/api/v1"@
}

pub open spec fn default_model() -> Seq<char> {
    "google/gemini-3-flash-preview"@
}

/// Seconds a request may take.
pub const REQUEST_TIMEOUT_SECS: u64 = 60;

/// The text of an optional string, or `default` when absent.
pub open spec fn or_default(o: Option<String>, default: Seq<char>) -> Seq<char> {
    match o {
        Some(s) => s@,
        None => default,
    }
}

fn text_or(o: Option<String>, default: &str) -> (s: String)
    ensures
        s@ == or_default(o, default@),
{
    match o {
        Some(s) => s,
        None => default.to_owned(),
    }
}

impl OpenRouter {
    /// Resolves the provider settings. The API key given here wins over the
    /// environment's; without either the construction fails.
    pub fn new(model: Option<String>, api_key: Option<String>, env: ProviderEnv) -> (r: Result<
        OpenRouter,
        String,
    >)
        ensures
            api_key is None && env.api_key is None <==> r is Err,
            r matches Err(m) ==> m@ == missing_key_message(),
            r matches Ok(p) ==> {
                &&& p.api_key@ == (if api_key is Some {
                    api_key->0@
                } else {
                    env.api_key->0@
                })
                &&& p.base_url@ == or_default(env.base_url, default_base_url())
                &&& p.app_url == env.app_url
                &&& p.app_name == env.app_name
                &&& p.model@ == or_default(model, default_model())
                &&& p.timeout_secs == REQUEST_TIMEOUT_SECS
            },
    {
        let api = match api_key {
            Some(k) => k,
            None => match env.api_key {
                Some(k) => k,
                None => {
                    return Err("OpenRouter API key is required (OPENROUTER_API_KEY)".to_owned());
                },
            },
        };
        let base_url = text_or(env.base_url, "https://openrouter.ai/api/v1");
        let model = text_or(model, "google/gemini-3-flash-preview");
        Ok(OpenRouter {
            base_url,
            api_key: api,
            app_url: env.app_url,
            app_name: env.app_name,
            model,
            timeout_secs: REQUEST_TIMEOUT_SECS,
        })
    }
}

/// One request header: its name and its value.
#[derive(Debug)]
pub struct HeaderEntry {
    pub name: String,
    pub value: String,
}

/// The (name, value) texts of headers.
pub open spec fn header_views(v: Seq<HeaderEntry>) -> Seq<(Seq<char>, Seq<char>)> {
    v.map_values(|h: HeaderEntry| (h.name@, h.value@))
}

/// The headers of a chat request, in the order they are set: the
/// authorization and content type, then the application URL and name where
/// they are configured.
pub open spec fn request_headers(p: OpenRouter) -> Seq<(Seq<char>, Seq<char>)> {
    seq![("Authorization"@, "Bearer "@ + p.api_key@), ("content-type"@, "application/json"@)]
        + match p.app_url {
        Some(u) => seq![("Referer"@, u@)],
        None => seq![],
    } + match p.app_name {
        Some(n) => seq![("X-OpenRouter-Title"@, n@)],
        None => seq![],
    }
}

/// The chat endpoint: the base URL without trailing `/`, then `/chat/completions`.
pub open spec fn completions_url(base_url: Seq<char>) -> Seq<char> {
    trim_end_set(base_url, TrimSet::Only('/')) + "/chat/completions"@
}

fn header(name: &str, value: String) -> (h: HeaderEntry)
    ensures
        h.name@ == name@,
        h.value@ == value@,
{
    HeaderEntry { name: name.to_owned(), value }
}

fn clone_string(s: &String) -> (r: String)
    ensures
        r@ == s@,
{
    s.clone()
}

impl OpenRouter {
    /// The headers of a chat request; the application URL and name are sent
    /// where they are configured.
    pub fn header_entries(&self) -> (h: Vec<HeaderEntry>)
        ensures
            header_views(h@) == request_headers(*self),
    {
        let mut auth = String::new();
        push_str(&mut auth, "Bearer ");
        push_str(&mut auth, self.api_key.as_str());
        let mut h: Vec<HeaderEntry> = Vec::new();
        h.push(header("Authorization", auth));
        h.push(header("content-type", "application/json".to_owned()));
        let ghost fixed = header_views(h@);
        match &self.app_url {
            Some(u) => {
                h.push(header("Referer", clone_string(u)));
            },
            None => {},
        }
        let ghost with_url = header_views(h@);
        match &self.app_name {
            Some(n) => {
                h.push(header("X-OpenRouter-Title", clone_string(n)));
            },
            None => {},
        }
        proof {
            let url_part = if self.app_url is Some {
                seq![("Referer"@, self.app_url->0@)]
            } else {
                Seq::<(Seq<char>, Seq<char>)>::empty()
            };
            let name_part = if self.app_name is Some {
                seq![("X-OpenRouter-Title"@, self.app_name->0@)]
            } else {
                Seq::<(Seq<char>, Seq<char>)>::empty()
            };
            assert(fixed =~= seq![("Authorization"@, "Bearer "@ + self.api_key@), ("content-type"@, "application/json"@)]);
            assert(with_url =~= fixed + url_part);
            assert(header_views(h@) =~= with_url + name_part);
        }
        h
    }

    /// The URL chat requests are posted to.
    pub fn chat_completions_url(&self) -> (u: String)
        ensures
            u@ == completions_url(self.base_url@),
    {
        let base = chars_of(self.base_url.as_str());
        let trimmed = trim_end_chars(&base, TrimSet::Only('/'));
        let mut u = string_of(&trimmed);
        push_str(&mut u, "/chat/completions");
        u
    }
}

// ---------------------------------------------------------------------------
// Reply content
// ---------------------------------------------------------------------------

/// One element of an array-valued message content: an object, with the JSON
/// renderings of its `text` and `content` fields where present, or any other
/// value.
#[derive(Debug)]
pub enum ContentItem {
    Object { text: Option<String>, content: Option<String> },
    NonObject,
}

/// A message content: a string, an array, or any other value (held as its
/// JSON rendering).
#[derive(Debug)]
pub enum MessageContent {
    Text(String),
    Parts(Vec<ContentItem>),
    Other(String),
}

/// An object item names its text by `text`, or failing that by `content`.
pub open spec fn item_has_text(item: ContentItem) -> bool {
    match item {
        ContentItem::Object { text, content } => text is Some || content is Some,
        ContentItem::NonObject => true,
    }
}

/// The text an item contributes: the rendering of its `text` (else `content`)
/// field with surrounding `"` removed; nothing for a non-object.
pub open spec fn item_text(item: ContentItem) -> Seq<char> {
    match item {
        ContentItem::Object { text, content } => {
            let r = if text is Some {
                text->0@
            } else {
                content->0@
            };
            trim_set(r, TrimSet::Only('"'))
        },
        ContentItem::NonObject => seq![],
    }
}

/// The texts of the items, concatenated in order.
pub open spec fn items_text(items: Seq<ContentItem>) -> Seq<char>
    decreases items.len(),
{
    if items.len() == 0 {
        seq![]
    } else {
        items_text(items.drop_last()) + item_text(items.last())
    }
}

/// The text of a message content.
pub open spec fn content_text(c: MessageContent) -> Seq<char> {
    match c {
        MessageContent::Text(s) => s@,
        MessageContent::Parts(items) => items_text(items@),
        MessageContent::Other(r) => r@,
    }
}

impl OpenRouter {
    /// The text of a message content: a string as is, an array as the
    /// concatenated texts of its object items, anything else as its rendering.
    pub fn extract_content_text(value: &MessageContent) -> (t: String)
        requires
            value matches MessageContent::Parts(items) ==> forall|i: int|
                0 <= i < items@.len() ==> item_has_text(#[trigger] items@[i]),
        ensures
            t@ == content_text(*value),
    {
        match value {
            MessageContent::Text(s) => clone_string(s),
            MessageContent::Other(r) => clone_string(r),
            MessageContent::Parts(items) => {
                let mut chunks = String::new();
                for i in 0..items.len()
                    invariant
                        chunks@ == items_text(items@.take(i as int)),
                        forall|j: int| 0 <= j < items@.len() ==> item_has_text(#[trigger] items@[j]),
                {
                    proof {
                        assert(items@.take(i + 1).drop_last() =~= items@.take(i as int));
                        assert(items@.take(i + 1).last() == items@[i as int]);
                    }
                    match &items[i] {
                        ContentItem::Object { text, content } => {
                            let rendered = match text {
                                Some(t) => t,
                                None => match content {
                                    Some(c) => c,
                                    None => {
                                        assert(item_has_text(items@[i as int]));
                                        return String::new();
                                    },
                                },
                            };
                            let part = trim_chars(&chars_of(rendered.as_str()), TrimSet::Only('"'));
                            push_chars(&mut chunks, &part);
                        },
                        ContentItem::NonObject => {
                            assert(chunks@ =~= chunks@ + Seq::<char>::empty());
                        },
                    }
                }
                proof {
                    assert(items@.take(items.len() as int) =~= items@);
                }
                chunks
            },
        }
    }
}

/// A trailing `/` on the base URL makes no difference to the endpoint.
pub proof fn law_trailing_slash_ignored(base_url: Seq<char>)
    ensures
        completions_url(base_url.push('/')) == completions_url(base_url),
{
    let s = base_url.push('/');
    assert(s.last() == '/');
    assert(s.drop_last() =~= base_url);
}

} // verus!
