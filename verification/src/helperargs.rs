//! The chroot helper's command line: four URL-safe-base64 blobs
//! carrying the build root, the working directory, the command vector
//! and the environment.  Vectors and maps travel in the same canonical
//! length-prefixed text the recipes use; the environment flattens to
//! alternating keys and values.

use vstd::prelude::*;
use crate::envmap::EnvMap;
use crate::recipe_text::{enc_list, enc_str, emit_str_list};
use crate::recipe_parse::parse_str_list;
use crate::strutil::{chars_of, string_of, utf8_bytes_of};

verus! {

/// What base64's URL-safe engine produces for given bytes; a function
/// of the bytes alone.
pub uninterp spec fn url_b64_of(bytes: Seq<u8>) -> Seq<char>;

/// Relies on the URL-safe padded engine of the `base64` crate: the
/// encoding is a function of the input bytes alone.
#[verifier::external_body]
fn b64_encode(data: &[u8]) -> (r: String)
    ensures
        r@ == url_b64_of(data@),
{
    base64::Engine::encode(&base64::engine::general_purpose::URL_SAFE, data)
}

/// Relies on the same engine's decode: it accepts exactly canonical
/// encodings (padding required, trailing bits rejected), so a decoded
/// value re-encodes to the input.
#[verifier::external_body]
fn b64_decode(s: &str) -> (r: Option<Vec<u8>>)
    ensures
        r matches Some(v) ==> s@ == url_b64_of(v@),
{
    match base64::Engine::decode(&base64::engine::general_purpose::URL_SAFE, s) {
        Ok(v) => Some(v),
        Err(_) => None,
    }
}

/// The environment as alternating key and value strings, in entry
/// order.
pub open spec fn env_flat(entries: Seq<(Seq<char>, Seq<char>)>) -> Seq<Seq<char>>
    decreases entries.len(),
{
    if entries.len() == 0 {
        Seq::empty()
    } else {
        env_flat(entries.drop_last()) + seq![entries.last().0, entries.last().1]
    }
}

/// The text a helper blob carries.
pub open spec fn blob_of_str(s: Seq<char>) -> Seq<char> {
    url_b64_of(vstd::utf8::encode_utf8(s))
}

/// Build the helper's four arguments: root, working directory, command
/// vector, environment.
pub fn encode_helper_args(root: &str, cwd: &str, argv: &Vec<String>, env: &EnvMap) -> (r: Vec<
    String,
>)
    ensures
        r@.len() == 4,
        r@[0]@ == blob_of_str(root@),
        r@[1]@ == blob_of_str(cwd@),
        r@[2]@ == blob_of_str(enc_list(argv.deep_view(), |s: Seq<char>| enc_str(s))),
        r@[3]@ == blob_of_str(enc_list(env_flat(env.entry_seq()), |s: Seq<char>| enc_str(s))),
{
    let mut out: Vec<String> = Vec::new();
    let rb = utf8_bytes_of(root);
    out.push(b64_encode(rb.as_slice()));
    let cb = utf8_bytes_of(cwd);
    out.push(b64_encode(cb.as_slice()));
    let mut argv_text: Vec<char> = Vec::new();
    emit_str_list(&mut argv_text, argv);
    proof {
        assert(argv_text@ =~= enc_list(argv.deep_view(), |s: Seq<char>| enc_str(s)));
    }
    let at = string_of(&argv_text);
    let ab = utf8_bytes_of(at.as_str());
    out.push(b64_encode(ab.as_slice()));
    let flat = flatten_env(env);
    let mut env_text: Vec<char> = Vec::new();
    emit_str_list(&mut env_text, &flat);
    proof {
        assert(env_text@ =~= enc_list(env_flat(env.entry_seq()), |s: Seq<char>| enc_str(s)));
    }
    let et = string_of(&env_text);
    let eb = utf8_bytes_of(et.as_str());
    out.push(b64_encode(eb.as_slice()));
    out
}

/// The environment's entries as a flat string vector.
fn flatten_env(env: &EnvMap) -> (r: Vec<String>)
    ensures
        r.deep_view() == env_flat(env.entry_seq()),
{
    let mut r: Vec<String> = Vec::new();
    let mut i: usize = 0;
    let n = env.len();
    proof {
        assert(r.deep_view() =~= env_flat(env.entry_seq().take(0)));
    }
    while i < n
        invariant
            n == env.entry_seq().len(),
            i <= n,
            r.deep_view() == env_flat(env.entry_seq().take(i as int)),
        decreases n - i,
    {
        let e = env.entry_at(i);
        let kc = chars_of(e.0.as_str());
        let vc = chars_of(e.1.as_str());
        let ghost rb = r.deep_view();
        r.push(string_of(&kc));
        r.push(string_of(&vc));
        proof {
            let es = env.entry_seq();
            assert(es.take(i + 1).drop_last() =~= es.take(i as int));
            assert(es.take(i + 1).last() == es[i as int]);
            assert(r.deep_view() =~= rb + seq![es[i as int].0, es[i as int].1]);
        }
        i = i + 1;
    }
    proof {
        assert(env.entry_seq().take(env.entry_seq().len() as int) =~= env.entry_seq());
    }
    r
}

/// Decode the helper's four arguments back into root, working
/// directory, command vector and environment.  `None` when a blob is
/// not canonical base64, not UTF-8, or not the expected text shape;
/// whatever comes back re-encodes to the given arguments.
pub fn decode_helper_args(args: &Vec<String>) -> (r: Option<(String, String, Vec<String>, EnvMap)>)
    ensures
        match r {
            Some((root, cwd, argv, env)) => {
                &&& args@.len() == 4
                &&& args@[0]@ == blob_of_str(root@)
                &&& args@[1]@ == blob_of_str(cwd@)
                &&& exists|text: Seq<char>|
                    args@[2]@ == blob_of_str(text) && #[trigger] crate::recipe_parse::p_str_list(
                        text,
                        0,
                    ) == Some((argv.deep_view(), text.len() as int))
                &&& env.wf()
            },
            None => true,
        },
{
    if args.len() != 4 {
        return None;
    }
    let root = match decode_text(&args[0]) {
        Some(s) => s,
        None => {
            return None;
        },
    };
    let cwd = match decode_text(&args[1]) {
        Some(s) => s,
        None => {
            return None;
        },
    };
    let argv_text = match decode_text(&args[2]) {
        Some(s) => s,
        None => {
            return None;
        },
    };
    let ac = chars_of(argv_text.as_str());
    let (argv, used) = match parse_str_list(&ac, 0) {
        Some(x) => x,
        None => {
            return None;
        },
    };
    if used != ac.len() {
        return None;
    }
    proof {
        assert(crate::recipe_parse::p_str_list(ac@, 0) == Some(
            (argv.deep_view(), ac@.len() as int),
        ));
    }
    let env_text = match decode_text(&args[3]) {
        Some(s) => s,
        None => {
            return None;
        },
    };
    let ec = chars_of(env_text.as_str());
    let (flat, eused) = match parse_str_list(&ec, 0) {
        Some(x) => x,
        None => {
            return None;
        },
    };
    if eused != ec.len() {
        return None;
    }
    if flat.len() % 2 != 0 {
        return None;
    }
    let mut env = EnvMap::new();
    let mut i: usize = 0;
    while i + 1 < flat.len()
        invariant
            env.wf(),
            flat@.len() % 2 == 0,
            i % 2 == 0,
            i <= flat@.len(),
        decreases flat@.len() - i,
    {
        let kc = chars_of(flat[i].as_str());
        let vc = chars_of(flat[i + 1].as_str());
        env.insert(string_of(&kc), string_of(&vc));
        i = i + 2;
    }
    Some((root, cwd, argv, env))
}

/// One blob back to text.
fn decode_text(blob: &String) -> (r: Option<String>)
    ensures
        r matches Some(s) ==> blob@ == blob_of_str(s@),
{
    let bytes = match b64_decode(blob.as_str()) {
        Some(b) => b,
        None => {
            return None;
        },
    };
    match crate::strutil::string_from_utf8(bytes) {
        Some(s) => Some(s),
        None => None,
    }
}

} // verus!
