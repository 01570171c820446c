use vstd::prelude::*;
use vstd::string::*;

verus! {

// The configuration document: exactly two basic-string fields, written as
//
//     database_url = "..."
//     domain = "..."
//
// The writer emits fields that need no escape sequences (no quote, no
// backslash, no control character), and the reader accepts exactly the
// documents the writer emits.

/// The mathematical value of a configuration.
pub ghost struct CfgModel {
    pub database_url: Seq<char>,
    pub domain: Seq<char>,
}

/// The tool's persisted settings: where the backing store lives and the
/// domain shown in composed short URLs.
pub struct Config {
    pub database_url: String,
    pub domain: String,
}

impl View for Config {
    type V = CfgModel;

    open spec fn view(&self) -> CfgModel {
        CfgModel { database_url: self.database_url@, domain: self.domain@ }
    }
}

/// A character that may stand unescaped inside a basic string: not a quote,
/// not a backslash, not a control character.
pub open spec fn char_clean(c: char) -> bool {
    c != '"' && c != '\\' && c as u32 >= 0x20
}

/// A field the writer can emit without escape sequences.
pub open spec fn clean_text(s: Seq<char>) -> bool {
    forall|i: int| 0 <= i < s.len() ==> char_clean(#[trigger] s[i])
}

/// The text before the first field.
pub open spec fn doc_head() -> Seq<char> {
    "database_url = \""@
}

/// The text between the two fields.
pub open spec fn doc_mid() -> Seq<char> {
    "\"\ndomain = \""@
}

/// The text after the second field.
pub open spec fn doc_tail() -> Seq<char> {
    "\"\n"@
}

/// The whole document for the fields `url` and `dom`.
pub open spec fn config_doc(url: Seq<char>, dom: Seq<char>) -> Seq<char> {
    doc_head() + url + doc_mid() + dom + doc_tail()
}

proof fn reveal_doc_pieces()
    ensures
        doc_head().len() == 16,
        doc_mid().len() == 12,
        doc_tail().len() == 2,
        doc_mid()[0] == '"',
        doc_tail()[0] == '"',
        doc_tail()[1] == '\n',
        !char_clean(doc_mid()[0]),
        !char_clean(doc_tail()[0]),
{
    reveal_strlit("database_url = \"");
    reveal_strlit("\"\ndomain = \"");
    reveal_strlit("\"\n");
}

/// Where each piece of a document stands: the lengths and the characters at
/// and around the two quotes that close the fields.
proof fn lemma_doc_shape(t: Seq<char>, u: Seq<char>, d: Seq<char>)
    requires
        t == config_doc(u, d),
    ensures
        t.len() == 30 + u.len() + d.len(),
        forall|j: int| 0 <= j < 16 ==> t[j] == doc_head()[j],
        forall|j: int| 0 <= j < u.len() ==> t[16 + j] == u[j],
        forall|j: int| 0 <= j < 12 ==> t[16 + u.len() + j] == doc_mid()[j],
        forall|j: int| 0 <= j < d.len() ==> t[28 + u.len() + j] == d[j],
        t[28 + u.len() as int + d.len() as int] == '"',
        t[29 + u.len() as int + d.len() as int] == '\n',
{
    reveal_doc_pieces();
    assert(t.len() == 30 + u.len() + d.len());
    assert forall|j: int| 0 <= j < 16 implies t[j] == doc_head()[j] by {
        assert(t[j] == (doc_head() + u + doc_mid() + d + doc_tail())[j]);
    }
    assert(t[28 + u.len() as int + d.len() as int] == doc_tail()[0]);
    assert(t[29 + u.len() as int + d.len() as int] == doc_tail()[1]);
}

/// In a document with clean fields, the first quote at or after the head is
/// the one that closes the first field.
proof fn lemma_first_quote(t: Seq<char>, u: Seq<char>, d: Seq<char>, q: int)
    requires
        clean_text(u),
        clean_text(d),
        t == config_doc(u, d),
        16 <= q < t.len(),
        t[q] == '"',
        forall|j: int| 16 <= j < q ==> char_clean(#[trigger] t[j]),
    ensures
        q == 16 + u.len(),
{
    lemma_doc_shape(t, u, d);
    reveal_doc_pieces();
    if q < 16 + u.len() {
        assert(t[q] == u[q - 16]);
        assert(char_clean(u[q - 16]));
    } else if q > 16 + u.len() {
        assert(t[16 + u.len() as int] == doc_mid()[0]);
        assert(char_clean(t[16 + u.len() as int]));
    }
}

/// In a document with clean fields, the first quote at or after the middle
/// piece is the one that closes the second field.
proof fn lemma_second_quote(t: Seq<char>, u: Seq<char>, d: Seq<char>, q: int)
    requires
        clean_text(u),
        clean_text(d),
        t == config_doc(u, d),
        28 + u.len() <= q < t.len(),
        t[q] == '"',
        forall|j: int| 28 + u.len() <= j < q ==> char_clean(#[trigger] t[j]),
    ensures
        q == 28 + u.len() + d.len(),
{
    lemma_doc_shape(t, u, d);
    reveal_doc_pieces();
    if q < 28 + u.len() + d.len() {
        assert(t[q] == d[q - 28 - u.len()]);
        assert(char_clean(d[q - 28 - u.len()]));
    } else if q > 28 + u.len() + d.len() {
        assert(char_clean(t[28 + u.len() as int + d.len() as int]));
    }
}

/// Law: writing a configuration and reading the document back yields the
/// same fields. Stated as injectivity of the document: two clean pairs of
/// fields with the same document are equal field for field.
pub proof fn lemma_config_round_trip(u: Seq<char>, d: Seq<char>, u2: Seq<char>, d2: Seq<char>)
    requires
        clean_text(u),
        clean_text(d),
        clean_text(u2),
        clean_text(d2),
        config_doc(u, d) == config_doc(u2, d2),
    ensures
        u == u2,
        d == d2,
{
    let t = config_doc(u, d);
    reveal_doc_pieces();
    lemma_doc_shape(t, u, d);
    lemma_doc_shape(t, u2, d2);
    assert(t[16 + u2.len() as int] == doc_mid()[0]);
    assert forall|j: int| 16 <= j < 16 + u2.len() implies char_clean(#[trigger] t[j]) by {
        assert(t[j] == u2[j - 16]);
    }
    lemma_first_quote(t, u, d, 16 + u2.len() as int);
    assert(u.len() == u2.len());
    assert(u =~= u2) by {
        assert forall|j: int| 0 <= j < u.len() implies u[j] == u2[j] by {
            assert(t[16 + j] == u[j]);
            assert(t[16 + j] == u2[j]);
        }
    }
    assert(d.len() == d2.len());
    assert(d =~= d2) by {
        assert forall|j: int| 0 <= j < d.len() implies d[j] == d2[j] by {
            assert(t[28 + u.len() + j] == d[j]);
            assert(t[28 + u2.len() + j] == d2[j]);
        }
    }
}

/// Whether every character of `s` may stand unescaped in a basic string.
pub fn text_is_clean(s: &str) -> (r: bool)
    ensures
        r == clean_text(s@),
{
    let n: usize = s.unicode_len();
    let mut i: usize = 0;
    while i < n
        invariant
            n == s@.len(),
            i <= n,
            forall|j: int| 0 <= j < i ==> char_clean(#[trigger] s@[j]),
        decreases n - i,
    {
        let c: char = s.get_char(i);
        if c == '"' || c == '\\' || (c as u32) < 0x20 {
            return false;
        }
        i = i + 1;
    }
    true
}

/// Write the configuration out as its document, or return None when a field
/// would need an escape sequence.
pub fn encode_config(c: &Config) -> (r: Option<String>)
    ensures
        match r {
            Some(s) => {
                &&& clean_text(c.database_url@)
                &&& clean_text(c.domain@)
                &&& s@ == config_doc(c.database_url@, c.domain@)
            },
            None => !(clean_text(c.database_url@) && clean_text(c.domain@)),
        },
{
    if !text_is_clean(c.database_url.as_str()) || !text_is_clean(c.domain.as_str()) {
        return None;
    }
    let mut out = String::from_str("database_url = \"");
    out.append(c.database_url.as_str());
    out.append("\"\ndomain = \"");
    out.append(c.domain.as_str());
    out.append("\"\n");
    proof {
        assert(out@ =~= config_doc(c.database_url@, c.domain@));
    }
    Some(out)
}

/// Whether `pat` occurs in `s` starting at `at`.
fn match_at(s: &str, at: usize, pat: &str) -> (r: bool)
    requires
        at <= s@.len(),
    ensures
        r == (at + pat@.len() <= s@.len() && (forall|j: int|
            0 <= j < pat@.len() ==> s@[at + j] == #[trigger] pat@[j])),
{
    let m: usize = pat.unicode_len();
    let n: usize = s.unicode_len();
    if m > n - at {
        return false;
    }
    let mut j: usize = 0;
    while j < m
        invariant
            m == pat@.len(),
            n == s@.len(),
            at + m <= n,
            j <= m,
            forall|k: int| 0 <= k < j ==> s@[at + k] == #[trigger] pat@[k],
        decreases m - j,
    {
        if s.get_char(at + j) != pat.get_char(j) {
            return false;
        }
        j = j + 1;
    }
    true
}

/// The first place at or after `from` where a quote may close a field: all
/// characters before it are clean, or None when no quote follows a clean
/// run.
fn scan_quote(s: &str, from: usize) -> (r: Option<usize>)
    requires
        from <= s@.len(),
    ensures
        match r {
            Some(q) => {
                &&& from <= q < s@.len()
                &&& s@[q as int] == '"'
                &&& forall|j: int| from <= j < q ==> char_clean(#[trigger] s@[j])
            },
            None => forall|q: int|
                from <= q < s@.len() ==> !(s@[q] == '"' && (forall|j: int|
                    from <= j < q ==> char_clean(#[trigger] s@[j]))),
        },
{
    let n: usize = s.unicode_len();
    let mut i: usize = from;
    while i < n
        invariant
            n == s@.len(),
            from <= i <= n,
            forall|j: int| from <= j < i ==> char_clean(#[trigger] s@[j]) && s@[j] != '"',
        decreases n - i,
    {
        let c: char = s.get_char(i);
        if c == '"' {
            return Some(i);
        }
        if c == '\\' || (c as u32) < 0x20 {
            proof {
                assert forall|q: int|
                    from <= q < s@.len() implies !(s@[q] == '"' && (forall|j: int|
                    from <= j < q ==> char_clean(#[trigger] s@[j]))) by {
                    if s@[q] == '"' {
                        assert(q != i);
                        if q > i {
                            assert(!char_clean(s@[i as int]));
                        }
                    }
                }
            }
            return None;
        }
        i = i + 1;
    }
    None
}

/// Read a configuration back from its document. Returns the fields exactly
/// when `s` is the document of some configuration with clean fields;
/// otherwise nothing.
pub fn parse_config(s: &str) -> (r: Option<Config>)
    ensures
        match r {
            Some(c) => {
                &&& clean_text(c.database_url@)
                &&& clean_text(c.domain@)
                &&& s@ == config_doc(c.database_url@, c.domain@)
            },
            None => forall|u: Seq<char>, d: Seq<char>|
                clean_text(u) && clean_text(d) ==> s@ != #[trigger] config_doc(u, d),
        },
{
    let n: usize = s.unicode_len();
    proof {
        reveal_doc_pieces();
    }
    if !match_at(s, 0, "database_url = \"") {
        proof {
            assert forall|u: Seq<char>, d: Seq<char>|
                clean_text(u) && clean_text(d) implies s@ != #[trigger] config_doc(u, d) by {
                if s@ == config_doc(u, d) {
                    lemma_doc_shape(s@, u, d);
                }
            }
        }
        return None;
    }
    let q1: usize = match scan_quote(s, 16) {
        Some(q) => q,
        None => {
            proof {
                assert forall|u: Seq<char>, d: Seq<char>|
                    clean_text(u) && clean_text(d) implies s@ != #[trigger] config_doc(u, d) by {
                    if s@ == config_doc(u, d) {
                        lemma_doc_shape(s@, u, d);
                        let q: int = 16 + u.len() as int;
                        assert(s@[q] == '"');
                        assert forall|j: int| 16 <= j < q implies char_clean(#[trigger] s@[j]) by {
                            assert(s@[j] == u[j - 16]);
                        }
                    }
                }
            }
            return None;
        },
    };
    if !match_at(s, q1, "\"\ndomain = \"") {
        proof {
            assert forall|u: Seq<char>, d: Seq<char>|
                clean_text(u) && clean_text(d) implies s@ != #[trigger] config_doc(u, d) by {
                if s@ == config_doc(u, d) {
                    lemma_doc_shape(s@, u, d);
                    lemma_first_quote(s@, u, d, q1 as int);
                }
            }
        }
        return None;
    }
    let q2: usize = match scan_quote(s, q1 + 12) {
        Some(q) => q,
        None => {
            proof {
                assert forall|u: Seq<char>, d: Seq<char>|
                    clean_text(u) && clean_text(d) implies s@ != #[trigger] config_doc(u, d) by {
                    if s@ == config_doc(u, d) {
                        lemma_doc_shape(s@, u, d);
                        lemma_first_quote(s@, u, d, q1 as int);
                        let q: int = 28 + u.len() as int + d.len() as int;
                        assert(s@[q] == '"');
                        assert forall|j: int|
                            q1 + 12 <= j < q implies char_clean(#[trigger] s@[j]) by {
                            assert(s@[j] == d[j - 28 - u.len()]);
                        }
                    }
                }
            }
            return None;
        },
    };
    if n - q2 != 2 || s.get_char(q2 + 1) != '\n' {
        proof {
            assert forall|u: Seq<char>, d: Seq<char>|
                clean_text(u) && clean_text(d) implies s@ != #[trigger] config_doc(u, d) by {
                if s@ == config_doc(u, d) {
                    lemma_doc_shape(s@, u, d);
                    lemma_first_quote(s@, u, d, q1 as int);
                    lemma_second_quote(s@, u, d, q2 as int);
                }
            }
        }
        return None;
    }
    let url = s.substring_char(16, q1).to_owned();
    let dom = s.substring_char(q1 + 12, q2).to_owned();
    proof {
        assert forall|j: int| 0 <= j < url@.len() implies char_clean(#[trigger] url@[j]) by {
            assert(url@[j] == s@[16 + j]);
        }
        assert forall|j: int| 0 <= j < dom@.len() implies char_clean(#[trigger] dom@[j]) by {
            assert(dom@[j] == s@[q1 + 12 + j]);
        }
        assert(s@ =~= config_doc(url@, dom@)) by {
            assert(s@.len() == 30 + url@.len() + dom@.len());
            assert forall|k: int| 0 <= k < s@.len() implies s@[k] == config_doc(url@, dom@)[k] by {
                let t = config_doc(url@, dom@);
                if k < 16 {
                    assert(t[k] == doc_head()[k]);
                } else if k < q1 {
                    assert(t[k] == url@[k - 16]);
                    assert(url@[k - 16] == s@[k]);
                } else if k < q1 + 12 {
                    assert(t[k] == doc_mid()[k - q1]);
                    assert(s@[k] == doc_mid()[k - q1]);
                } else if k < q2 {
                    assert(t[k] == dom@[k - q1 - 12]);
                    assert(dom@[k - q1 - 12] == s@[k]);
                } else if k == q2 {
                    assert(t[k] == doc_tail()[0]);
                } else {
                    assert(t[k] == doc_tail()[1]);
                }
            }
        }
    }
    Some(Config { database_url: url, domain: dom })
}

impl Config {
    /// The short URL shown for an alias: the configured domain with the
    /// alias as the path.
    pub fn short_url(&self, alias: &str) -> (r: String)
        ensures
            r@ == "https://"@ + self.domain@ + "/"@ + alias@,
    {
        let mut out = String::from_str("https://");
        out.append(self.domain.as_str());
        out.append("/");
        out.append(alias);
        proof {
            assert(out@ =~= "https://"@ + self.domain@ + "/"@ + alias@);
        }
        out
    }
}

} // verus!
