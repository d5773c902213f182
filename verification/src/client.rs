use vstd::prelude::*;
use vstd::string::is_ascii_spec_bytes;
use vstd::utf8::encode_scalar;
use vstd::string::StrSliceExecFns;
use vstd::string::StringExecFns;

use crate::error::PipelineError;

verus! {

/// The reference dimensionality: every embedding the demo pipeline stores
/// or queries has this many components.
pub const EMBED_DIM: usize = 384;

/// Configuration of the embedding client: where to call, which model to
/// request, how long to wait, and the vector length the store expects.
pub struct EmbedConfig {
    pub base_url: String,
    pub model: String,
    pub timeout_secs: u64,
    pub dim: usize,
}

impl EmbedConfig {
    /// The reference configuration: a local endpoint, the `all-minilm`
    /// model, a one-minute timeout and the reference dimensionality.
    pub fn reference() -> (c: EmbedConfig)
        ensures
            c.base_url@ == "http://localhost:11434"@,
            c.model@ == "all-minilm"@,
            c.timeout_secs == 60,
            c.dim == EMBED_DIM,
    {
        EmbedConfig {
            base_url: String::from_str("http://localhost:11434"),
            model: String::from_str("all-minilm"),
            timeout_secs: 60,
            dim: EMBED_DIM,
        }
    }

    /// The URL of the embeddings endpoint: the base URL followed by the
    /// fixed sub-path.
    pub fn endpoint_url(&self) -> (u: String)
        ensures
            u@ == self.base_url@ + "/api/embeddings"@,
    {
        let mut u = self.base_url.clone();
        u.append("/api/embeddings");
        u
    }
}

/// The client-side dimensionality check: a vector whose length differs
/// from the configured dimensionality is rejected with a schema error
/// before it reaches the store.
pub fn validate_embedding(dim: usize, v: &Vec<i32>) -> (r: Result<(), PipelineError>)
    ensures
        match r {
            Ok(_) => v@.len() == dim,
            Err(e) => v@.len() != dim && e == (PipelineError::Schema {
                expected: dim,
                actual: v.len(),
            }),
        },
{
    if v.len() != dim {
        return Err(PipelineError::Schema { expected: dim, actual: v.len() });
    }
    Ok(())
}

/// A hexadecimal digit, lower case.
pub open spec fn hex_digit(n: int) -> u8 {
    if n < 10 {
        (48 + n) as u8
    } else {
        (87 + n) as u8
    }
}

/// Bytes of `c` inside a JSON string: quote and backslash get a
/// backslash escape, other control characters a `\u00` hex escape, and
/// every other character contributes its UTF-8 bytes.
pub open spec fn json_escaped_char(c: char) -> Seq<u8> {
    if c == '"' {
        seq![92u8, 34u8]
    } else if c == '\\' {
        seq![92u8, 92u8]
    } else if (c as int) < 32 {
        seq![92u8, 117u8, 48u8, 48u8, hex_digit(c as int / 16), hex_digit(c as int % 16)]
    } else {
        encode_scalar(c as u32)
    }
}

/// Bytes of a whole text inside a JSON string.
pub open spec fn json_escaped(s: Seq<char>) -> Seq<u8>
    decreases s.len(),
{
    if s.len() == 0 {
        Seq::empty()
    } else {
        json_escaped_char(s[0]) + json_escaped(s.drop_first())
    }
}

/// An ASCII text as its bytes.
pub open spec fn ascii_bytes(s: Seq<char>) -> Seq<u8> {
    Seq::new(s.len(), |i: int| s[i] as u8)
}

/// The request body the embedding endpoint expects: a JSON object with
/// the model name and the prompt.
pub open spec fn embed_request_body(model: Seq<char>, prompt: Seq<char>) -> Seq<u8> {
    ascii_bytes("{\"model\":\""@) + json_escaped(model) + ascii_bytes("\",\"prompt\":\""@)
        + json_escaped(prompt) + ascii_bytes("\"}"@)
}

pub proof fn lemma_json_escaped_append(a: Seq<char>, b: Seq<char>)
    ensures
        json_escaped(a + b) == json_escaped(a) + json_escaped(b),
    decreases a.len(),
{
    if a.len() == 0 {
        assert(a + b =~= b);
        assert(json_escaped(a) =~= Seq::<u8>::empty());
        assert(json_escaped(a) + json_escaped(b) =~= json_escaped(b));
    } else {
        lemma_json_escaped_append(a.drop_first(), b);
        assert((a + b)[0] == a[0]);
        assert((a + b).len() != 0);
        assert((a + b).drop_first() =~= a.drop_first() + b);
        assert(json_escaped(a + b) =~= (json_escaped_char(a[0]) + json_escaped(a.drop_first()))
            + json_escaped(b));
    }
}

pub proof fn lemma_json_escaped_snoc(s: Seq<char>, i: int)
    requires
        0 <= i < s.len(),
    ensures
        json_escaped(s.take(i + 1)) == json_escaped(s.take(i)) + json_escaped_char(s[i]),
{
    let single = seq![s[i]];
    assert(s.take(i + 1) =~= s.take(i) + single);
    lemma_json_escaped_append(s.take(i), single);
    assert(single.drop_first() =~= Seq::<char>::empty());
    assert(json_escaped(single.drop_first()) =~= Seq::<u8>::empty());
    assert(json_escaped(single) =~= json_escaped_char(s[i]));
}

/// Appends the UTF-8 bytes of one character to `out`.
fn push_utf8(out: &mut Vec<u8>, c: char)
    ensures
        final(out)@ == old(out)@ + encode_scalar(c as u32),
{
    let v = c as u32;
    if v <= 0x7F {
        out.push((v & 0x7F) as u8);
    } else if v <= 0x7FF {
        out.push(0xC0u8 | ((v >> 6u32) & 0x1F) as u8);
        out.push(0x80u8 | (v & 0x3F) as u8);
    } else if v <= 0xFFFF {
        out.push(0xE0u8 | ((v >> 12u32) & 0x0F) as u8);
        out.push(0x80u8 | ((v >> 6u32) & 0x3F) as u8);
        out.push(0x80u8 | (v & 0x3F) as u8);
    } else {
        out.push(0xF0u8 | ((v >> 18u32) & 0x7) as u8);
        out.push(0x80u8 | ((v >> 12u32) & 0x3F) as u8);
        out.push(0x80u8 | ((v >> 6u32) & 0x3F) as u8);
        out.push(0x80u8 | (v & 0x3F) as u8);
    }
    proof {
        assert(out@ =~= old(out)@ + encode_scalar(c as u32));
    }
}

/// Appends the JSON-string escaping of `s` to `out`.
fn push_escaped(out: &mut Vec<u8>, s: &str)
    ensures
        final(out)@ == old(out)@ + json_escaped(s@),
{
    let ghost init = old(out)@;
    let n = s.unicode_len();
    let mut i: usize = 0;
    proof {
        assert(s@.take(0) =~= Seq::<char>::empty());
        assert(init + json_escaped(s@.take(0)) =~= init);
    }
    while i < n
        invariant
            n == s@.len(),
            i <= n,
            out@ == init + json_escaped(s@.take(i as int)),
        decreases n - i,
    {
        let c = s.get_char(i);
        let ghost before = out@;
        if c == '"' {
            out.push(92);
            out.push(34);
        } else if c == '\\' {
            out.push(92);
            out.push(92);
        } else if (c as u32) < 32 {
            out.push(92);
            out.push(117);
            out.push(48);
            out.push(48);
            let hi = ((c as u32) / 16) as u8;
            let lo = ((c as u32) % 16) as u8;
            out.push(if hi < 10 {
                48 + hi
            } else {
                87 + hi
            });
            out.push(if lo < 10 {
                48 + lo
            } else {
                87 + lo
            });
        } else {
            push_utf8(out, c);
        }
        proof {
            assert(out@ =~= before + json_escaped_char(s@[i as int]));
            lemma_json_escaped_snoc(s@, i as int);
            assert(out@ =~= init + json_escaped(s@.take(i as int + 1)));
        }
        i = i + 1;
    }
    proof {
        assert(s@.take(n as int) =~= s@);
    }
}

/// Appends the bytes of an ASCII literal to `out`.
fn push_ascii(out: &mut Vec<u8>, s: &str)
    requires
        s.is_ascii(),
    ensures
        final(out)@ == old(out)@ + ascii_bytes(s@),
{
    let mut part = s.as_bytes_vec();
    proof {
        broadcast use is_ascii_spec_bytes;

        assert(part@ =~= ascii_bytes(s@));
    }
    out.append(&mut part);
}

/// The HTTP request body for one embedding call, built from the model
/// name and the prompt alone: `{"model":"...","prompt":"..."}` with both
/// strings JSON-escaped and encoded as UTF-8.
pub fn embed_request_bytes(model: &str, prompt: &str) -> (r: Vec<u8>)
    ensures
        r@ == embed_request_body(model@, prompt@),
{
    let mut out: Vec<u8> = Vec::new();
    proof {
        reveal_strlit("{\"model\":\"");
        reveal_strlit("\",\"prompt\":\"");
        reveal_strlit("\"}");
    }
    push_ascii(&mut out, "{\"model\":\"");
    push_escaped(&mut out, model);
    push_ascii(&mut out, "\",\"prompt\":\"");
    push_escaped(&mut out, prompt);
    push_ascii(&mut out, "\"}");
    proof {
        assert(out@ =~= embed_request_body(model@, prompt@));
    }
    out
}

} // verus!
