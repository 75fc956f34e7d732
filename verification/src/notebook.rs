//! The notebook document model.
//!
//! A versioned document: root, metadata, cell variants, output variants,
//! and a string-or-line-array text representation. Every entity with an
//! unrecognized bag keeps, verbatim, each field the schema does not name,
//! and re-emits it unchanged; decoding back what was encoded, and encoding
//! back what was decoded, is proved in the contracts below.

use vstd::prelude::*;

use crate::Error;
use crate::text::{parse_json_text, parsed_json, printed_json, render_json_text};
use crate::digits::{dec_str, dec_val, is_canon_dec, lemma_canon_unique, parse_dec_u64,
    print_dec_u64};
use crate::json::{JsonField, JsonSpec, JsonValue, arr_model, in_keys, lemma_insert_remove,
    lemma_remove_absent, lemma_remove_gone, lemma_remove_keys_subset, lemma_remove_preserves_get,
    lemma_remove_sorted, lemma_wf_get, obj_dup, obj_find, obj_get, obj_insert, obj_model,
    obj_remove, obj_sorted, obj_with, obj_without, str_eq, wf_json};

verus! {

/// MIME bundle: a mapping from content-type identifier to one piece of
/// data, kept as raw JSON fields.
pub type MimeBundle = Vec<JsonField>;

/// Embedded media for a cell: filename to MIME bundle.
pub type CellAttachments = Vec<(String, MimeBundle)>;

/// Metadata attached to one output, kept as raw JSON fields.
pub type OutputMetadata = Vec<JsonField>;

/// Text content: either a single string or an ordered sequence of line
/// fragments; both forms mean their concatenation.
#[derive(Clone, Debug, PartialEq, Eq)]
pub enum MultilineString {
    /// One string.
    Single(String),
    /// An ordered sequence of fragments.
    Multi(Vec<String>),
}

/// The concatenation of a fragment sequence.
pub open spec fn join_frags(fs: Seq<Seq<char>>) -> Seq<char>
    decreases fs.len(),
{
    if fs.len() == 0 {
        Seq::empty()
    } else {
        fs[0] + join_frags(fs.skip(1))
    }
}

/// The views of a fragment list.
pub open spec fn frag_models(v: Seq<String>) -> Seq<Seq<char>> {
    Seq::new(v.len(), |i: int| v[i]@)
}

/// The length of the first line of `s`, counting its newline where one
/// stands.
pub open spec fn line_len(s: Seq<char>) -> int
    decreases s.len(),
{
    if s.len() == 0 {
        0
    } else if s[0] == '\n' {
        1
    } else {
        1 + line_len(s.skip(1))
    }
}

pub proof fn lemma_line_len_bounds(s: Seq<char>)
    ensures
        s.len() > 0 ==> 1 <= line_len(s) <= s.len(),
        s.len() == 0 ==> line_len(s) == 0,
    decreases s.len(),
{
    if s.len() > 0 && s[0] != '\n' {
        lemma_line_len_bounds(s.skip(1));
    }
}

/// The canonical line split of a logical string: each produced fragment
/// includes its trailing newline, except possibly the last; the empty
/// string splits into no fragments.
pub open spec fn split_lines(s: Seq<char>) -> Seq<Seq<char>>
    decreases s.len(),
    via split_lines_dec
{
    if s.len() == 0 {
        Seq::empty()
    } else {
        seq![s.take(line_len(s))] + split_lines(s.skip(line_len(s)))
    }
}

#[via_fn]
proof fn split_lines_dec(s: Seq<char>) {
    lemma_line_len_bounds(s);
}

/// Joining what was split restores the string.
pub proof fn lemma_join_split(s: Seq<char>)
    ensures
        join_frags(split_lines(s)) == s,
    decreases s.len(),
{
    if s.len() == 0 {
        assert(join_frags(split_lines(s)) =~= s);
    } else {
        lemma_line_len_bounds(s);
        let l = line_len(s);
        lemma_join_split(s.skip(l));
        let parts = seq![s.take(l)] + split_lines(s.skip(l));
        assert(parts[0] == s.take(l));
        assert(parts.skip(1) =~= split_lines(s.skip(l)));
        assert(s.take(l) + s.skip(l) =~= s);
    }
}

/// Canonicalization is idempotent: splitting the join of a split changes
/// nothing. This is the whole behaviour of `normalize` run twice, stated
/// over the functions its contract uses.
pub proof fn lemma_normalize_idempotent(s: Seq<char>)
    ensures
        split_lines(join_frags(split_lines(s))) == split_lines(s),
{
    lemma_join_split(s);
}

/// Appending one fragment appends its text.
pub proof fn lemma_join_snoc(fs: Seq<Seq<char>>, x: Seq<char>)
    ensures
        join_frags(fs.push(x)) == join_frags(fs) + x,
    decreases fs.len(),
{
    if fs.len() == 0 {
        assert(join_frags(fs.push(x)) == fs.push(x)[0] + join_frags(fs.push(x).skip(1)));
        assert(fs.push(x).skip(1) =~= fs);
        assert(fs.push(x)[0] + join_frags(fs) =~= join_frags(fs) + x);
    } else {
        assert(fs.push(x)[0] == fs[0]);
        assert(fs.push(x).skip(1) =~= fs.skip(1).push(x));
        lemma_join_snoc(fs.skip(1), x);
        assert(fs[0] + (join_frags(fs.skip(1)) + x) =~= (fs[0] + join_frags(fs.skip(1))) + x);
    }
}

/// The first line of `s.skip(pos)`, located by the scan that found the
/// next newline at `end` (or none up to the string's end).
proof fn lemma_line_len_at(s: Seq<char>, pos: int, end: int)
    requires
        0 <= pos <= end <= s.len(),
        forall|j: int| pos <= j < end ==> s[j] != '\n',
        end < s.len() ==> s[end] == '\n',
    ensures
        line_len(s.skip(pos)) == (if end < s.len() {
            end + 1
        } else {
            end
        }) - pos,
    decreases end - pos,
{
    if pos == end {
        if pos == s.len() {
            assert(s.skip(pos).len() == 0);
        } else {
            assert(s.skip(pos)[0] == s[pos]);
        }
    } else {
        assert(s.skip(pos)[0] == s[pos]);
        lemma_line_len_at(s, pos + 1, end);
        assert(s.skip(pos).skip(1) =~= s.skip(pos + 1));
    }
}

impl MultilineString {
    /// The logical string this text stands for.
    pub open spec fn content(self) -> Seq<char> {
        match self {
            MultilineString::Single(s) => s@,
            MultilineString::Multi(v) => join_frags(frag_models(v@)),
        }
    }

    /// The logical string, as one owned string.
    pub fn joined(&self) -> (r: String)
        ensures
            r@ == self.content(),
    {
        match self {
            MultilineString::Single(s) => s.clone(),
            MultilineString::Multi(v) => {
                let mut out = String::new();
                let mut i: usize = 0;
                while i < v.len()
                    invariant
                        0 <= i <= v@.len(),
                        out@ == join_frags(frag_models(v@).take(i as int)),
                    decreases v@.len() - i,
                {
                    proof {
                        lemma_join_snoc(frag_models(v@).take(i as int), v@[i as int]@);
                        assert(frag_models(v@).take(i as int).push(v@[i as int]@) =~= frag_models(
                            v@,
                        ).take(i as int + 1));
                    }
                    out.append(v[i].as_str());
                    i += 1;
                }
                proof {
                    assert(frag_models(v@).take(v@.len() as int) =~= frag_models(v@));
                }
                out
            },
        }
    }

    /// Convert to the line-array form conventionally stored: the logical
    /// string re-split after each newline. An empty logical string yields
    /// an empty sequence.
    #[verifier::loop_isolation(false)]
    pub fn normalize(&self) -> (r: Self)
        ensures
            r matches MultilineString::Multi(ls) && frag_models(ls@) == split_lines(
                self.content(),
            ),
    {
        let joined = self.joined();
        let s = joined.as_str();
        let n = s.unicode_len();
        let mut lines: Vec<String> = Vec::new();
        let mut pos: usize = 0;
        proof {
            assert(s@.skip(0) =~= s@);
            assert(frag_models(lines@) + split_lines(s@) =~= split_lines(s@));
        }
        while pos < n
            invariant
                0 <= pos <= n,
                split_lines(s@) == frag_models(lines@) + split_lines(s@.skip(pos as int)),
            decreases n - pos,
        {
            let mut end = pos;
            while end < n && s.get_char(end) != '\n'
                invariant
                    pos <= end <= n,
                    forall|j: int| pos <= j < end ==> s@[j] != '\n',
                decreases n - end,
            {
                end += 1;
            }
            let stop = if end < n {
                end + 1
            } else {
                end
            };
            proof {
                lemma_line_len_at(s@, pos as int, end as int);
            }
            let line = s.substring_char(pos, stop);
            let ghost before = lines@;
            lines.push(line.to_owned());
            proof {
                let rest = s@.skip(pos as int);
                let l = line_len(rest);
                assert(l == stop - pos);
                assert(rest.take(l) =~= s@.subrange(pos as int, stop as int));
                assert(rest.skip(l) =~= s@.skip(stop as int));
                assert(split_lines(rest) == seq![line@] + split_lines(s@.skip(stop as int)));
                assert(frag_models(lines@) =~= frag_models(before).push(line@));
                assert(frag_models(before).push(line@) + split_lines(s@.skip(stop as int))
                    =~= frag_models(before) + split_lines(rest));
            }
            pos = stop;
        }
        proof {
            assert(s@.skip(n as int).len() == 0);
            assert(split_lines(s@.skip(n as int)) =~= Seq::<Seq<char>>::empty());
            assert(frag_models(lines@) + split_lines(s@.skip(n as int)) =~= frag_models(lines@));
        }
        MultilineString::Multi(lines)
    }

    /// The JSON form of this text: the string itself, or the array of its
    /// fragments.
    pub open spec fn enc(self) -> JsonSpec {
        match self {
            MultilineString::Single(s) => JsonSpec::Str(s@),
            MultilineString::Multi(v) => JsonSpec::Arr(frags_enc(v@)),
        }
    }
}

/// The JSON strings of a fragment list.
pub open spec fn frags_enc(v: Seq<String>) -> Seq<JsonSpec> {
    Seq::new(v.len(), |i: int| JsonSpec::Str(v[i]@))
}

/// A JSON value in one of the two text shapes: a string, or an array of
/// strings.
pub open spec fn multiline_ok(j: JsonSpec) -> bool {
    match j {
        JsonSpec::Str(_) => true,
        JsonSpec::Arr(a) => forall|i: int| 0 <= i < a.len() ==> (#[trigger] a[i]) is Str,
        _ => false,
    }
}

/// Decode text content from either representation, by shape alone.
#[verifier::loop_isolation(false)]
pub fn decode_multiline(v: &JsonValue) -> (r: Result<MultilineString, Error>)
    ensures
        r is Ok <==> multiline_ok(v.model()),
        r matches Ok(m) ==> m.enc() == v.model(),
{
    match v {
        JsonValue::Str(s) => Ok(MultilineString::Single(s.clone())),
        JsonValue::Arr(a) => {
            let mut out: Vec<String> = Vec::new();
            let mut i: usize = 0;
            while i < a.len()
                invariant
                    0 <= i <= a@.len(),
                    out@.len() == i,
                    forall|j: int| 0 <= j < i ==> arr_model(a@)[j] == JsonSpec::Str(
                        #[trigger] out@[j]@,
                    ),
                decreases a@.len() - i,
            {
                match &a[i] {
                    JsonValue::Str(s) => {
                        out.push(s.clone());
                    },
                    _ => {
                        proof {
                            assert(!(arr_model(a@)[i as int] is Str));
                        }
                        return Err(Error::Format("source: expected string fragment".to_owned()));
                    },
                }
                i += 1;
            }
            proof {
                assert(frags_enc(out@) =~= arr_model(a@));
            }
            Ok(MultilineString::Multi(out))
        },
        _ => Err(Error::Format("source: expected string or array of strings".to_owned())),
    }
}

/// Encode text content back into its JSON form.
#[verifier::loop_isolation(false)]
pub fn encode_multiline(m: &MultilineString) -> (r: JsonValue)
    ensures
        r.model() == m.enc(),
{
    match m {
        MultilineString::Single(s) => JsonValue::Str(s.clone()),
        MultilineString::Multi(v) => {
            let mut out: Vec<JsonValue> = Vec::new();
            let mut i: usize = 0;
            while i < v.len()
                invariant
                    0 <= i <= v@.len(),
                    out@.len() == i,
                    forall|j: int| 0 <= j < i ==> (#[trigger] out@[j].model()) == JsonSpec::Str(
                        v@[j]@,
                    ),
                decreases v@.len() - i,
            {
                out.push(JsonValue::Str(v[i].clone()));
                i += 1;
            }
            proof {
                assert forall|j: int| 0 <= j < v@.len() implies arr_model(out@)[j]
                    == frags_enc(v@)[j] by {
                    assert(arr_model(out@)[j] == out@[j].model());
                    assert(out@[j].model() == JsonSpec::Str(v@[j]@));
                }
                assert(arr_model(out@) =~= frags_enc(v@));
            }
            JsonValue::Arr(out)
        },
    }
}

// ---------------------------------------------------------------------------
// Field access: conformity and decoded value of one recognized field.
// ---------------------------------------------------------------------------

/// A required string field is present and is a string.
pub open spec fn req_str_ok(o: Seq<(Seq<char>, JsonSpec)>, k: Seq<char>) -> bool {
    obj_get(o, k) matches Some(JsonSpec::Str(_))
}

/// The text of a required string field.
pub open spec fn req_str_of(o: Seq<(Seq<char>, JsonSpec)>, k: Seq<char>) -> Seq<char> {
    obj_get(o, k)->Some_0->Str_0
}

/// An optional string field is absent, null, or a string.
pub open spec fn opt_str_ok(o: Seq<(Seq<char>, JsonSpec)>, k: Seq<char>) -> bool {
    match obj_get(o, k) {
        Option::None => true,
        Option::Some(j) => j is Str || j is Null,
    }
}

/// The decoded value of an optional string field: absent and null both
/// yield nothing.
pub open spec fn opt_str_of(o: Seq<(Seq<char>, JsonSpec)>, k: Seq<char>) -> Option<Seq<char>> {
    match obj_get(o, k) {
        Option::Some(JsonSpec::Str(s)) => Some(s),
        _ => None,
    }
}

/// A required integer field holds a canonical numeral within `max`.
pub open spec fn req_num_ok(o: Seq<(Seq<char>, JsonSpec)>, k: Seq<char>, max: int) -> bool {
    obj_get(o, k) matches Some(JsonSpec::Num(s)) && is_canon_dec(s) && dec_val(s) <= max
}

/// The value of a required integer field.
pub open spec fn req_num_of(o: Seq<(Seq<char>, JsonSpec)>, k: Seq<char>) -> int {
    dec_val(obj_get(o, k)->Some_0->Num_0)
}

/// An optional integer field is absent, null, or a canonical numeral
/// within `max`.
pub open spec fn opt_num_ok(o: Seq<(Seq<char>, JsonSpec)>, k: Seq<char>, max: int) -> bool {
    match obj_get(o, k) {
        Option::None => true,
        Option::Some(j) => j is Null || (j matches JsonSpec::Num(s) && is_canon_dec(s) && dec_val(
            s,
        ) <= max),
    }
}

/// The decoded value of an optional integer field.
pub open spec fn opt_num_of(o: Seq<(Seq<char>, JsonSpec)>, k: Seq<char>) -> Option<int> {
    match obj_get(o, k) {
        Option::Some(JsonSpec::Num(s)) => Some(dec_val(s)),
        _ => None,
    }
}

/// A field stands present as null. Such a field decodes, but is re-encoded
/// as absent, so exact round trips exclude it.
pub open spec fn field_null(o: Seq<(Seq<char>, JsonSpec)>, k: Seq<char>) -> bool {
    obj_get(o, k) == Some(JsonSpec::Null)
}

pub(crate) fn take_req_str(o: &Vec<JsonField>, k: &str) -> (r: Result<String, Error>)
    ensures
        r is Ok <==> req_str_ok(obj_model(o@), k@),
        r matches Ok(s) ==> obj_get(obj_model(o@), k@) == Some(JsonSpec::Str(s@)),
        r matches Err(e) ==> e is Format,
{
    match obj_find(o, k) {
        Some(JsonValue::Str(s)) => Ok(s.clone()),
        _ => Err(Error::Format(k.to_owned())),
    }
}

fn take_opt_str(o: &Vec<JsonField>, k: &str) -> (r: Result<Option<String>, Error>)
    ensures
        r is Ok <==> opt_str_ok(obj_model(o@), k@),
        r matches Ok(v) ==> match v {
            Some(s) => opt_str_of(obj_model(o@), k@) == Some(s@),
            None => opt_str_of(obj_model(o@), k@) is None,
        },
        r matches Err(e) ==> e is Format,
{
    match obj_find(o, k) {
        Option::None => Ok(None),
        Some(JsonValue::Null) => Ok(None),
        Some(JsonValue::Str(s)) => Ok(Some(s.clone())),
        Some(_) => Err(Error::Format(k.to_owned())),
    }
}

pub(crate) fn take_req_num(o: &Vec<JsonField>, k: &str, max: u64) -> (r: Result<u64, Error>)
    ensures
        r is Ok <==> req_num_ok(obj_model(o@), k@, max as int),
        r matches Ok(n) ==> req_num_ok(obj_model(o@), k@, max as int) && req_num_of(
            obj_model(o@),
            k@,
        ) == n as int,
        r matches Err(e) ==> e is Format,
{
    match obj_find(o, k) {
        Some(JsonValue::Num(s)) => match parse_dec_u64(s.as_str(), max) {
            Some(n) => Ok(n),
            Option::None => Err(Error::Format(k.to_owned())),
        },
        _ => Err(Error::Format(k.to_owned())),
    }
}

fn take_opt_num(o: &Vec<JsonField>, k: &str, max: u64) -> (r: Result<Option<u64>, Error>)
    ensures
        r is Ok <==> opt_num_ok(obj_model(o@), k@, max as int),
        r matches Ok(v) ==> match v {
            Some(n) => opt_num_of(obj_model(o@), k@) == Some(n as int),
            None => opt_num_of(obj_model(o@), k@) is None,
        },
        r matches Err(e) ==> e is Format,
{
    match obj_find(o, k) {
        Option::None => Ok(None),
        Some(JsonValue::Null) => Ok(None),
        Some(JsonValue::Num(s)) => match parse_dec_u64(s.as_str(), max) {
            Some(n) => Ok(Some(n)),
            Option::None => Err(Error::Format(k.to_owned())),
        },
        Some(_) => Err(Error::Format(k.to_owned())),
    }
}

/// Decode any JSON object into its raw field list.
fn decode_obj_fields(v: &JsonValue, what: &str) -> (r: Result<Vec<JsonField>, Error>)
    ensures
        r is Ok <==> v.model() is Obj,
        r matches Ok(fs) ==> JsonSpec::Obj(obj_model(fs@)) == v.model(),
{
    match v {
        JsonValue::Obj(o) => Ok(obj_dup(o)),
        _ => Err(Error::Format(what.to_owned())),
    }
}

/// The JSON of an optional string field: nothing encodes as an absent
/// field.
pub open spec fn with_opt_str(
    o: Seq<(Seq<char>, JsonSpec)>,
    k: Seq<char>,
    v: Option<String>,
) -> Seq<(Seq<char>, JsonSpec)> {
    match v {
        Some(s) => obj_insert(o, k, JsonSpec::Str(s@)),
        None => o,
    }
}

/// The JSON of an optional integer field.
pub open spec fn with_opt_num(
    o: Seq<(Seq<char>, JsonSpec)>,
    k: Seq<char>,
    v: Option<int>,
) -> Seq<(Seq<char>, JsonSpec)> {
    match v {
        Some(n) => obj_insert(o, k, JsonSpec::Num(dec_str(n as nat))),
        None => o,
    }
}

/// Encode an optional string field onto an object under construction.
fn put_opt_str(o: Vec<JsonField>, k: &str, v: &Option<String>) -> (r: Vec<JsonField>)
    ensures
        obj_model(r@) == with_opt_str(obj_model(o@), k@, *v),
{
    match v {
        Some(s) => obj_with(&o, k, JsonValue::Str(s.clone())),
        None => o,
    }
}

/// Encode an optional integer field onto an object under construction.
fn put_opt_num(o: Vec<JsonField>, k: &str, v: Option<u64>) -> (r: Vec<JsonField>)
    ensures
        obj_model(r@) == with_opt_num(obj_model(o@), k@, match v {
            Some(n) => Some(n as int),
            None => None,
        }),
{
    match v {
        Some(n) => {
            let s = print_dec_u64(n);
            obj_with(&o, k, JsonValue::Num(s))
        },
        None => o,
    }
}

// ---------------------------------------------------------------------------
// Round-trip plumbing: removing the recognized fields of an object and
// inserting back what they decoded to restores the object.
// ---------------------------------------------------------------------------

/// One step: on a sorted object, putting back the binding of `k` after its
/// removal restores the object; an absent or merely-null `k`... (the three
/// field states each have their lemma below).
proof fn lemma_field_round(o: Seq<(Seq<char>, JsonSpec)>, k: Seq<char>, v: JsonSpec)
    requires
        obj_sorted(o),
        obj_get(o, k) == Some(v),
    ensures
        obj_insert(obj_remove(o, k), k, v) == o,
        obj_sorted(obj_remove(o, k)),
{
    lemma_insert_remove(o, k);
    lemma_remove_sorted(o, k);
}

/// One step for a field that is not there: removal changes nothing.
proof fn lemma_field_absent(o: Seq<(Seq<char>, JsonSpec)>, k: Seq<char>)
    requires
        obj_sorted(o),
        obj_get(o, k) is None,
    ensures
        obj_remove(o, k) == o,
        obj_sorted(obj_remove(o, k)),
{
    lemma_remove_absent(o, k);
    lemma_remove_sorted(o, k);
}

// ---------------------------------------------------------------------------
// Entities.
// ---------------------------------------------------------------------------

/// Kernel identity recorded in a document.
#[derive(Debug, PartialEq, Eq)]
pub struct KernelSpec {
    /// Name of the kernel specification.
    pub name: String,
    /// Display name of the kernel.
    pub display_name: String,
    /// Additional unrecognized attributes, kept verbatim.
    pub other: Vec<JsonField>,
}

/// A JSON value in the shape of a kernel specification.
pub open spec fn kernel_spec_ok(j: JsonSpec) -> bool {
    j matches JsonSpec::Obj(o) && req_str_ok(o, "name"@) && req_str_ok(o, "display_name"@)
}

impl KernelSpec {
    /// The JSON object this kernel specification encodes to.
    pub open spec fn enc_obj(self) -> Seq<(Seq<char>, JsonSpec)> {
        obj_insert(
            obj_insert(
                obj_model(self.other@),
                "display_name"@,
                JsonSpec::Str(self.display_name@),
            ),
            "name"@,
            JsonSpec::Str(self.name@),
        )
    }

    /// The JSON value this kernel specification encodes to.
    pub open spec fn enc(self) -> JsonSpec {
        JsonSpec::Obj(self.enc_obj())
    }
}

/// The decoded kernel specification corresponds to the JSON, field for
/// field: typed fields project the source fields, and the bag holds
/// exactly the source object minus the recognized keys.
pub open spec fn kernel_spec_matches(ks: KernelSpec, j: JsonSpec) -> bool {
    j matches JsonSpec::Obj(m) && ks.name@ == req_str_of(m, "name"@) && ks.display_name@
        == req_str_of(m, "display_name"@) && obj_model(ks.other@) == obj_remove(
        obj_remove(m, "name"@),
        "display_name"@,
    )
}

/// Decode a kernel specification; fails naming the missing or mistyped
/// field.
pub fn decode_kernel_spec(v: &JsonValue) -> (r: Result<KernelSpec, Error>)
    ensures
        r is Ok <==> kernel_spec_ok(v.model()),
        r matches Ok(ks) ==> kernel_spec_matches(ks, v.model()),
        r matches Ok(ks) ==> (wf_json(v.model()) ==> ks.enc() == v.model()),
{
    let o = match v {
        JsonValue::Obj(o) => o,
        _ => {
            return Err(Error::Format("kernelspec: expected object".to_owned()));
        },
    };
    let name = take_req_str(o, "name")?;
    let display_name = take_req_str(o, "display_name")?;
    let without_name = obj_without(o, "name");
    let rest = obj_without(&without_name, "display_name");
    let ks = KernelSpec { name, display_name, other: rest };
    proof {
        if wf_json(v.model()) {
            reveal_strlit("name");
            reveal_strlit("display_name");
            assert("name"@ != "display_name"@) by {
                assert("name"@.len() == 4);
                assert("display_name"@.len() == 12);
            }
            let m = obj_model(o@);
            let m1 = obj_remove(m, "name"@);
            lemma_remove_preserves_get(m, "name"@, "display_name"@);
            lemma_field_round(m, "name"@, JsonSpec::Str(ks.name@));
            lemma_field_round(m1, "display_name"@, JsonSpec::Str(ks.display_name@));
        }
    }
    Ok(ks)
}

/// Encode a kernel specification.
pub fn encode_kernel_spec(ks: &KernelSpec) -> (r: JsonValue)
    ensures
        r.model() == ks.enc(),
{
    let o1 = obj_with(&ks.other, "display_name", JsonValue::Str(ks.display_name.clone()));
    let o2 = obj_with(&o1, "name", JsonValue::Str(ks.name.clone()));
    JsonValue::Obj(o2)
}

/// One document author.
#[derive(Debug, PartialEq, Eq)]
pub struct Author {
    /// Name of the author.
    pub name: Option<String>,
    /// Additional unrecognized attributes, kept verbatim.
    pub other: Vec<JsonField>,
}

/// A JSON value in the shape of an author entry.
pub open spec fn author_ok(j: JsonSpec) -> bool {
    j matches JsonSpec::Obj(o) && opt_str_ok(o, "name"@)
}

/// An author entry that also round-trips exactly: no optional field stands
/// as null.
pub open spec fn author_exact(j: JsonSpec) -> bool {
    author_ok(j) && !field_null(j->Obj_0, "name"@)
}

impl Author {
    /// The JSON object this author encodes to.
    pub open spec fn enc_obj(self) -> Seq<(Seq<char>, JsonSpec)> {
        with_opt_str(obj_model(self.other@), "name"@, self.name)
    }

    /// The JSON value this author encodes to.
    pub open spec fn enc(self) -> JsonSpec {
        JsonSpec::Obj(self.enc_obj())
    }
}

/// The decoded author corresponds to the JSON, field for field.
pub open spec fn author_matches(a: Author, j: JsonSpec) -> bool {
    j matches JsonSpec::Obj(m) && (match a.name {
        Some(s) => opt_str_of(m, "name"@) == Some(s@),
        None => opt_str_of(m, "name"@) is None,
    }) && obj_model(a.other@) == obj_remove(m, "name"@)
}

/// Decode one author entry.
pub fn decode_author(v: &JsonValue) -> (r: Result<Author, Error>)
    ensures
        r is Ok <==> author_ok(v.model()),
        r matches Ok(a) ==> author_matches(a, v.model()),
        r matches Ok(a) ==> (wf_json(v.model()) && author_exact(v.model()) ==> a.enc() == v.model()),
{
    let o = match v {
        JsonValue::Obj(o) => o,
        _ => {
            return Err(Error::Format("authors: expected object".to_owned()));
        },
    };
    let name = take_opt_str(o, "name")?;
    let rest = obj_without(o, "name");
    let a = Author { name, other: rest };
    proof {
        if wf_json(v.model()) && author_exact(v.model()) {
            reveal_strlit("name");
            let m = obj_model(o@);
            let nm = a.name;
            match nm {
                Some(s) => {
                    lemma_field_round(m, "name"@, JsonSpec::Str(s@));
                },
                None => {
                    lemma_field_absent(m, "name"@);
                },
            }
        }
    }
    Ok(a)
}

/// Encode one author entry.
pub fn encode_author(a: &Author) -> (r: JsonValue)
    ensures
        r.model() == a.enc(),
{
    let o = put_opt_str(obj_dup(&a.other), "name", &a.name);
    JsonValue::Obj(o)
}

/// Metadata of one cell: purely an unrecognized bag.
#[derive(Debug, PartialEq, Eq)]
pub struct CellMetadata {
    /// Every attribute in the cell's metadata, kept verbatim.
    pub other: Vec<JsonField>,
}

/// A JSON value in the shape of cell metadata: any object.
pub open spec fn cell_metadata_ok(j: JsonSpec) -> bool {
    j is Obj
}

impl CellMetadata {
    /// The JSON value this metadata encodes to.
    pub open spec fn enc(self) -> JsonSpec {
        JsonSpec::Obj(obj_model(self.other@))
    }
}

/// Decode cell metadata.
pub fn decode_cell_metadata(v: &JsonValue) -> (r: Result<CellMetadata, Error>)
    ensures
        r is Ok <==> cell_metadata_ok(v.model()),
        r matches Ok(cm) ==> cm.enc() == v.model(),
{
    let fields = decode_obj_fields(v, "metadata: expected object")?;
    Ok(CellMetadata { other: fields })
}

/// Encode cell metadata.
pub fn encode_cell_metadata(cm: &CellMetadata) -> (r: JsonValue)
    ensures
        r.model() == cm.enc(),
{
    JsonValue::Obj(obj_dup(&cm.other))
}

/// Editor-mode descriptor: a plain string or a nested mapping of
/// arbitrary attributes, told apart by shape.
#[derive(Debug, PartialEq, Eq)]
pub enum CodeMirrorMode {
    /// The mode named as one string.
    Plain(String),
    /// The mode given as a nested mapping.
    Mapping(Vec<JsonField>),
}

/// A JSON value in one of the two editor-mode shapes.
pub open spec fn codemirror_ok(j: JsonSpec) -> bool {
    j is Str || j is Obj
}

impl CodeMirrorMode {
    /// The JSON value this descriptor encodes to.
    pub open spec fn enc(self) -> JsonSpec {
        match self {
            CodeMirrorMode::Plain(s) => JsonSpec::Str(s@),
            CodeMirrorMode::Mapping(o) => JsonSpec::Obj(obj_model(o@)),
        }
    }
}

/// Decode an editor-mode descriptor, by shape alone.
pub fn decode_codemirror(v: &JsonValue) -> (r: Result<CodeMirrorMode, Error>)
    ensures
        r is Ok <==> codemirror_ok(v.model()),
        r matches Ok(c) ==> c.enc() == v.model(),
{
    match v {
        JsonValue::Str(s) => Ok(CodeMirrorMode::Plain(s.clone())),
        JsonValue::Obj(o) => Ok(CodeMirrorMode::Mapping(obj_dup(o))),
        _ => Err(Error::Format("codemirror_mode: expected string or object".to_owned())),
    }
}

/// Encode an editor-mode descriptor.
pub fn encode_codemirror(c: &CodeMirrorMode) -> (r: JsonValue)
    ensures
        r.model() == c.enc(),
{
    match c {
        CodeMirrorMode::Plain(s) => JsonValue::Str(s.clone()),
        CodeMirrorMode::Mapping(o) => JsonValue::Obj(obj_dup(o)),
    }
}

/// Language of the document's code.
#[derive(Debug, PartialEq, Eq)]
pub struct LanguageInfo {
    /// Programming language name.
    pub name: String,
    /// Editor mode for the language.
    pub codemirror_mode: Option<CodeMirrorMode>,
    /// File extension for files in this language.
    pub file_extension: Option<String>,
    /// MIME type for files in this language.
    pub mimetype: Option<String>,
    /// Lexer used for syntax highlighting.
    pub pygments_lexer: Option<String>,
    /// Additional unrecognized attributes, kept verbatim.
    pub other: Vec<JsonField>,
}

/// An optional field holding an editor-mode descriptor.
pub open spec fn opt_cm_ok(o: Seq<(Seq<char>, JsonSpec)>, k: Seq<char>) -> bool {
    match obj_get(o, k) {
        Option::None => true,
        Option::Some(j) => j is Null || codemirror_ok(j),
    }
}

/// A JSON value in the shape of language information.
pub open spec fn language_info_ok(j: JsonSpec) -> bool {
    j matches JsonSpec::Obj(o) && req_str_ok(o, "name"@) && opt_cm_ok(o, "codemirror_mode"@)
        && opt_str_ok(o, "file_extension"@) && opt_str_ok(o, "mimetype"@) && opt_str_ok(
        o,
        "pygments_lexer"@,
    )
}

/// Language information that also round-trips exactly: no optional field
/// stands as null.
pub open spec fn language_info_exact(j: JsonSpec) -> bool {
    language_info_ok(j) && !field_null(j->Obj_0, "codemirror_mode"@) && !field_null(
        j->Obj_0,
        "file_extension"@,
    ) && !field_null(j->Obj_0, "mimetype"@) && !field_null(j->Obj_0, "pygments_lexer"@)
}

impl LanguageInfo {
    /// The JSON object this language information encodes to.
    pub open spec fn enc_obj(self) -> Seq<(Seq<char>, JsonSpec)> {
        let o1 = with_opt_str(obj_model(self.other@), "pygments_lexer"@, self.pygments_lexer);
        let o2 = with_opt_str(o1, "mimetype"@, self.mimetype);
        let o3 = with_opt_str(o2, "file_extension"@, self.file_extension);
        let o4 = match self.codemirror_mode {
            Some(c) => obj_insert(o3, "codemirror_mode"@, c.enc()),
            None => o3,
        };
        obj_insert(o4, "name"@, JsonSpec::Str(self.name@))
    }

    /// The JSON value this language information encodes to.
    pub open spec fn enc(self) -> JsonSpec {
        JsonSpec::Obj(self.enc_obj())
    }
}

/// The recognized keys of language information are pairwise distinct.
proof fn lemma_li_keys()
    ensures
        "name"@ != "codemirror_mode"@,
        "name"@ != "file_extension"@,
        "name"@ != "mimetype"@,
        "name"@ != "pygments_lexer"@,
        "codemirror_mode"@ != "file_extension"@,
        "codemirror_mode"@ != "mimetype"@,
        "codemirror_mode"@ != "pygments_lexer"@,
        "file_extension"@ != "mimetype"@,
        "file_extension"@ != "pygments_lexer"@,
        "mimetype"@ != "pygments_lexer"@,
{
    reveal_strlit("name");
    reveal_strlit("codemirror_mode");
    reveal_strlit("file_extension");
    reveal_strlit("mimetype");
    reveal_strlit("pygments_lexer");
    assert("name"@.len() == 4);
    assert("codemirror_mode"@.len() == 15);
    assert("file_extension"@.len() == 14);
    assert("mimetype"@.len() == 8);
    assert("pygments_lexer"@.len() == 14);
    assert("file_extension"@[0] == 'f');
    assert("pygments_lexer"@[0] == 'p');
}

/// The decoded language information corresponds to the JSON, field for
/// field, with the bag holding exactly the unrecognized fields.
pub open spec fn language_info_matches(li: LanguageInfo, j: JsonSpec) -> bool {
    j matches JsonSpec::Obj(m) && li.name@ == req_str_of(m, "name"@) && (match li.codemirror_mode {
        Some(c) => obj_get(m, "codemirror_mode"@) == Some(c.enc()),
        None => obj_get(m, "codemirror_mode"@) is None || field_null(m, "codemirror_mode"@),
    }) && (match li.file_extension {
        Some(s) => opt_str_of(m, "file_extension"@) == Some(s@),
        None => opt_str_of(m, "file_extension"@) is None,
    }) && (match li.mimetype {
        Some(s) => opt_str_of(m, "mimetype"@) == Some(s@),
        None => opt_str_of(m, "mimetype"@) is None,
    }) && (match li.pygments_lexer {
        Some(s) => opt_str_of(m, "pygments_lexer"@) == Some(s@),
        None => opt_str_of(m, "pygments_lexer"@) is None,
    }) && obj_model(li.other@) == obj_remove(
        obj_remove(
            obj_remove(obj_remove(obj_remove(m, "name"@), "codemirror_mode"@), "file_extension"@),
            "mimetype"@,
        ),
        "pygments_lexer"@,
    )
}

/// Decode language information.
pub fn decode_language_info(v: &JsonValue) -> (r: Result<LanguageInfo, Error>)
    ensures
        r is Ok <==> language_info_ok(v.model()),
        r matches Ok(li) ==> language_info_matches(li, v.model()),
        r matches Ok(li) ==> (wf_json(v.model()) && language_info_exact(v.model()) ==> li.enc()
            == v.model()),
{
    let o = match v {
        JsonValue::Obj(o) => o,
        _ => {
            return Err(Error::Format("language_info: expected object".to_owned()));
        },
    };
    let name = take_req_str(o, "name")?;
    let codemirror_mode = match obj_find(o, "codemirror_mode") {
        Option::None => None,
        Some(JsonValue::Null) => None,
        Some(vv) => Some(decode_codemirror(vv)?),
    };
    let file_extension = take_opt_str(o, "file_extension")?;
    let mimetype = take_opt_str(o, "mimetype")?;
    let pygments_lexer = take_opt_str(o, "pygments_lexer")?;
    let r1 = obj_without(o, "name");
    let r2 = obj_without(&r1, "codemirror_mode");
    let r3 = obj_without(&r2, "file_extension");
    let r4 = obj_without(&r3, "mimetype");
    let rest = obj_without(&r4, "pygments_lexer");
    let li = LanguageInfo { name, codemirror_mode, file_extension, mimetype, pygments_lexer,
        other: rest };
    proof {
        if wf_json(v.model()) && language_info_exact(v.model()) {
            lemma_li_keys();
            let m0 = obj_model(o@);
            let kn = "name"@;
            let kc = "codemirror_mode"@;
            let kf = "file_extension"@;
            let km = "mimetype"@;
            let kp = "pygments_lexer"@;
            let m1 = obj_remove(m0, kn);
            let m2 = obj_remove(m1, kc);
            let m3 = obj_remove(m2, kf);
            let m4 = obj_remove(m3, km);
            lemma_remove_preserves_get(m0, kn, kc);
            lemma_remove_preserves_get(m0, kn, kf);
            lemma_remove_preserves_get(m0, kn, km);
            lemma_remove_preserves_get(m0, kn, kp);
            lemma_remove_preserves_get(m1, kc, kf);
            lemma_remove_preserves_get(m1, kc, km);
            lemma_remove_preserves_get(m1, kc, kp);
            lemma_remove_preserves_get(m2, kf, km);
            lemma_remove_preserves_get(m2, kf, kp);
            lemma_remove_preserves_get(m3, km, kp);
            lemma_remove_sorted(m0, kn);
            lemma_remove_sorted(m1, kc);
            lemma_remove_sorted(m2, kf);
            lemma_remove_sorted(m3, km);
            let pl = li.pygments_lexer;
            match pl {
                Some(sv) => lemma_field_round(m4, kp, JsonSpec::Str(sv@)),
                None => lemma_field_absent(m4, kp),
            }
            let mt = li.mimetype;
            match mt {
                Some(sv) => lemma_field_round(m3, km, JsonSpec::Str(sv@)),
                None => lemma_field_absent(m3, km),
            }
            let fe = li.file_extension;
            match fe {
                Some(sv) => lemma_field_round(m2, kf, JsonSpec::Str(sv@)),
                None => lemma_field_absent(m2, kf),
            }
            let cm = li.codemirror_mode;
            match cm {
                Some(c) => lemma_field_round(m1, kc, c.enc()),
                None => lemma_field_absent(m1, kc),
            }
            lemma_field_round(m0, kn, JsonSpec::Str(li.name@));
        }
    }
    Ok(li)
}

/// Encode language information.
pub fn encode_language_info(li: &LanguageInfo) -> (r: JsonValue)
    ensures
        r.model() == li.enc(),
{
    let o1 = put_opt_str(obj_dup(&li.other), "pygments_lexer", &li.pygments_lexer);
    let o2 = put_opt_str(o1, "mimetype", &li.mimetype);
    let o3 = put_opt_str(o2, "file_extension", &li.file_extension);
    let o4 = match &li.codemirror_mode {
        Some(c) => obj_with(&o3, "codemirror_mode", encode_codemirror(c)),
        None => o3,
    };
    let o5 = obj_with(&o4, "name", JsonValue::Str(li.name.clone()));
    JsonValue::Obj(o5)
}

/// Document-level metadata.
#[derive(Debug, PartialEq, Eq)]
pub struct NotebookMetadata {
    /// Kernel information.
    pub kernelspec: Option<KernelSpec>,
    /// Programming language information.
    pub language_info: Option<LanguageInfo>,
    /// Original notebook format before conversion.
    pub orig_nbformat: Option<u8>,
    /// Title of the notebook document.
    pub title: Option<String>,
    /// Authors of the notebook document.
    pub authors: Option<Vec<Author>>,
    /// Additional unrecognized attributes, kept verbatim.
    pub other: Vec<JsonField>,
}

/// The JSON values of an author list.
pub open spec fn authors_enc(a: Seq<Author>) -> Seq<JsonSpec> {
    Seq::new(a.len(), |i: int| a[i].enc())
}

/// An optional field holding a kernel specification.
pub open spec fn opt_ks_ok(o: Seq<(Seq<char>, JsonSpec)>, k: Seq<char>) -> bool {
    match obj_get(o, k) {
        Option::None => true,
        Option::Some(j) => j is Null || kernel_spec_ok(j),
    }
}

/// An optional field holding language information.
pub open spec fn opt_li_ok(o: Seq<(Seq<char>, JsonSpec)>, k: Seq<char>) -> bool {
    match obj_get(o, k) {
        Option::None => true,
        Option::Some(j) => j is Null || language_info_ok(j),
    }
}

/// Every element of an author array is in the author shape.
pub open spec fn authors_arr_ok(elems: Seq<JsonSpec>) -> bool {
    forall|i: int| 0 <= i < elems.len() ==> author_ok(#[trigger] elems[i])
}

/// Every element of an author array round-trips exactly.
pub open spec fn authors_arr_exact(elems: Seq<JsonSpec>) -> bool {
    forall|i: int| 0 <= i < elems.len() ==> author_exact(#[trigger] elems[i])
}

/// An optional field holding an author list.
pub open spec fn opt_authors_ok(o: Seq<(Seq<char>, JsonSpec)>, k: Seq<char>) -> bool {
    match obj_get(o, k) {
        Option::None => true,
        Option::Some(j) => j is Null || (j matches JsonSpec::Arr(a) && authors_arr_ok(a)),
    }
}

/// A JSON value in the shape of document metadata.
pub open spec fn notebook_metadata_ok(j: JsonSpec) -> bool {
    j matches JsonSpec::Obj(o) && opt_ks_ok(o, "kernelspec"@) && opt_li_ok(o, "language_info"@)
        && opt_num_ok(o, "orig_nbformat"@, 255) && opt_str_ok(o, "title"@) && opt_authors_ok(
        o,
        "authors"@,
    )
}

/// Document metadata that also round-trips exactly: no optional field
/// stands as null, and nested entities are exact in turn.
pub open spec fn notebook_metadata_exact(j: JsonSpec) -> bool {
    notebook_metadata_ok(j) && {
        let o = j->Obj_0;
        !field_null(o, "kernelspec"@) && (match obj_get(o, "language_info"@) {
            Option::Some(lj) => language_info_exact(lj),
            Option::None => true,
        }) && !field_null(o, "orig_nbformat"@) && !field_null(o, "title"@) && (match obj_get(
            o,
            "authors"@,
        ) {
            Option::Some(aj) => aj matches JsonSpec::Arr(a) && authors_arr_exact(a),
            Option::None => true,
        })
    }
}

impl NotebookMetadata {
    /// The JSON object this metadata encodes to.
    pub open spec fn enc_obj(self) -> Seq<(Seq<char>, JsonSpec)> {
        let o0 = obj_model(self.other@);
        let o1 = match self.authors {
            Some(aa) => obj_insert(o0, "authors"@, JsonSpec::Arr(authors_enc(aa@))),
            None => o0,
        };
        let o2 = with_opt_str(o1, "title"@, self.title);
        let o3 = with_opt_num(o2, "orig_nbformat"@, match self.orig_nbformat {
            Some(n) => Some(n as int),
            None => None,
        });
        let o4 = match self.language_info {
            Some(li) => obj_insert(o3, "language_info"@, li.enc()),
            None => o3,
        };
        match self.kernelspec {
            Some(ks) => obj_insert(o4, "kernelspec"@, ks.enc()),
            None => o4,
        }
    }

    /// The JSON value this metadata encodes to.
    pub open spec fn enc(self) -> JsonSpec {
        JsonSpec::Obj(self.enc_obj())
    }
}

/// The recognized keys of document metadata are pairwise distinct.
proof fn lemma_nbmeta_keys()
    ensures
        "kernelspec"@ != "language_info"@,
        "kernelspec"@ != "orig_nbformat"@,
        "kernelspec"@ != "title"@,
        "kernelspec"@ != "authors"@,
        "language_info"@ != "orig_nbformat"@,
        "language_info"@ != "title"@,
        "language_info"@ != "authors"@,
        "orig_nbformat"@ != "title"@,
        "orig_nbformat"@ != "authors"@,
        "title"@ != "authors"@,
{
    reveal_strlit("kernelspec");
    reveal_strlit("language_info");
    reveal_strlit("orig_nbformat");
    reveal_strlit("title");
    reveal_strlit("authors");
    assert("kernelspec"@.len() == 10);
    assert("language_info"@.len() == 13);
    assert("orig_nbformat"@.len() == 13);
    assert("title"@.len() == 5);
    assert("authors"@.len() == 7);
    assert("language_info"@[0] == 'l');
    assert("orig_nbformat"@[0] == 'o');
}

/// The decoded document metadata corresponds to the JSON, field for
/// field: nested entities correspond in turn, the author list keeps the
/// source order and length, and the bag holds exactly the unrecognized
/// fields.
pub open spec fn notebook_metadata_matches(nm: NotebookMetadata, j: JsonSpec) -> bool {
    j matches JsonSpec::Obj(m) && (match nm.kernelspec {
        Some(ks) => obj_get(m, "kernelspec"@) matches Some(kj) && kernel_spec_matches(ks, kj),
        None => obj_get(m, "kernelspec"@) is None || field_null(m, "kernelspec"@),
    }) && (match nm.language_info {
        Some(li) => obj_get(m, "language_info"@) matches Some(lj) && language_info_matches(li, lj),
        None => obj_get(m, "language_info"@) is None || field_null(m, "language_info"@),
    }) && (match nm.orig_nbformat {
        Some(n) => opt_num_of(m, "orig_nbformat"@) == Some(n as int),
        None => opt_num_of(m, "orig_nbformat"@) is None,
    }) && (match nm.title {
        Some(s) => opt_str_of(m, "title"@) == Some(s@),
        None => opt_str_of(m, "title"@) is None,
    }) && (match nm.authors {
        Some(aa) => obj_get(m, "authors"@) matches Some(JsonSpec::Arr(elems)) && aa@.len()
            == elems.len() && forall|i: int|
            0 <= i < elems.len() ==> author_matches(#[trigger] aa@[i], elems[i]),
        None => obj_get(m, "authors"@) is None || field_null(m, "authors"@),
    }) && obj_model(nm.other@) == obj_remove(
        obj_remove(
            obj_remove(obj_remove(obj_remove(m, "kernelspec"@), "language_info"@), "orig_nbformat"@),
            "title"@,
        ),
        "authors"@,
    )
}

/// Decode document metadata.
#[verifier::loop_isolation(false)]
#[verifier::rlimit(30)]
pub fn decode_notebook_metadata(v: &JsonValue) -> (r: Result<NotebookMetadata, Error>)
    ensures
        r is Ok <==> notebook_metadata_ok(v.model()),
        r matches Ok(nm) ==> notebook_metadata_matches(nm, v.model()),
        r matches Ok(nm) ==> (wf_json(v.model()) && notebook_metadata_exact(v.model())
            ==> nm.enc() == v.model()),
{
    let o = match v {
        JsonValue::Obj(o) => o,
        _ => {
            return Err(Error::Format("metadata: expected object".to_owned()));
        },
    };
    let kernelspec = match obj_find(o, "kernelspec") {
        Option::None => None,
        Some(JsonValue::Null) => None,
        Some(vv) => Some(decode_kernel_spec(vv)?),
    };
    let language_info = match obj_find(o, "language_info") {
        Option::None => None,
        Some(JsonValue::Null) => None,
        Some(vv) => Some(decode_language_info(vv)?),
    };
    let orig_nbformat = match take_opt_num(o, "orig_nbformat", 255)? {
        Some(n) => Some(n as u8),
        None => None,
    };
    let title = take_opt_str(o, "title")?;
    let ghost m0 = obj_model(o@);
    let authors: Option<Vec<Author>> = match obj_find(o, "authors") {
        Option::None => None,
        Some(JsonValue::Null) => None,
        Some(JsonValue::Arr(a)) => {
            let ghost am = arr_model(a@);
            let mut out: Vec<Author> = Vec::new();
            let mut i: usize = 0;
            while i < a.len()
                invariant
                    0 <= i <= a@.len(),
                    out@.len() == i,
                    forall|j: int| 0 <= j < i ==> author_ok(#[trigger] am[j]),
                    forall|j: int| 0 <= j < i ==> author_matches(#[trigger] out@[j], am[j]),
                    forall|j: int| 0 <= j < i ==> (wf_json(#[trigger] am[j]) && author_exact(am[j])
                        ==> out@[j].enc() == am[j]),
                decreases a@.len() - i,
            {
                proof {
                    assert(am[i as int] == a@[i as int].model());
                    assert(obj_get(m0, "authors"@) == Some(JsonSpec::Arr(am)));
                }
                let el = match decode_author(&a[i]) {
                    Ok(x) => x,
                    Err(e) => {
                        proof {
                            assert(!author_ok(am[i as int]));
                            let wi = i as int;
                            assert(!authors_arr_ok(am)) by {
                                if authors_arr_ok(am) {
                                    assert(author_ok(am[wi]));
                                    assert(false);
                                }
                            }
                            assert(!notebook_metadata_ok(v.model()));
                        }
                        return Err(e);
                    },
                };
                out.push(el);
                i += 1;
            }
            Some(out)
        },
        Some(_) => {
            return Err(Error::Format("authors: expected array".to_owned()));
        },
    };
    let r1 = obj_without(o, "kernelspec");
    let r2 = obj_without(&r1, "language_info");
    let r3 = obj_without(&r2, "orig_nbformat");
    let r4 = obj_without(&r3, "title");
    let rest = obj_without(&r4, "authors");
    let nm = NotebookMetadata { kernelspec, language_info, orig_nbformat, title, authors,
        other: rest };
    proof {
        if wf_json(v.model()) && notebook_metadata_exact(v.model()) {
            lemma_nbmeta_keys();
            let kk = "kernelspec"@;
            let kl = "language_info"@;
            let ko = "orig_nbformat"@;
            let kt = "title"@;
            let ka = "authors"@;
            let m1 = obj_remove(m0, kk);
            let m2 = obj_remove(m1, kl);
            let m3 = obj_remove(m2, ko);
            let m4 = obj_remove(m3, kt);
            lemma_remove_preserves_get(m0, kk, kl);
            lemma_remove_preserves_get(m0, kk, ko);
            lemma_remove_preserves_get(m0, kk, kt);
            lemma_remove_preserves_get(m0, kk, ka);
            lemma_remove_preserves_get(m1, kl, ko);
            lemma_remove_preserves_get(m1, kl, kt);
            lemma_remove_preserves_get(m1, kl, ka);
            lemma_remove_preserves_get(m2, ko, kt);
            lemma_remove_preserves_get(m2, ko, ka);
            lemma_remove_preserves_get(m3, kt, ka);
            lemma_remove_sorted(m0, kk);
            lemma_remove_sorted(m1, kl);
            lemma_remove_sorted(m2, ko);
            lemma_remove_sorted(m3, kt);
            let av = nm.authors;
            match av {
                Some(aa) => {
                    let aj = obj_get(m0, ka)->Some_0;
                    lemma_wf_get(m0, ka);
                    let elems = aj->Arr_0;
                    assert forall|j: int| 0 <= j < aa@.len() implies authors_enc(aa@)[j]
                        == elems[j] by {
                        assert(wf_json(elems[j]));
                        assert(author_exact(elems[j]));
                    }
                    assert(authors_enc(aa@) =~= elems);
                    lemma_field_round(m4, ka, JsonSpec::Arr(authors_enc(aa@)));
                },
                None => {
                    lemma_field_absent(m4, ka);
                },
            }
            let tv = nm.title;
            match tv {
                Some(sv) => lemma_field_round(m3, kt, JsonSpec::Str(sv@)),
                None => lemma_field_absent(m3, kt),
            }
            let ov = nm.orig_nbformat;
            match ov {
                Some(n) => {
                    let ns = obj_get(m2, ko)->Some_0->Num_0;
                    lemma_canon_unique(ns);
                    assert(dec_str(n as nat) == ns);
                    lemma_field_round(m2, ko, JsonSpec::Num(ns));
                },
                None => lemma_field_absent(m2, ko),
            }
            let lv = nm.language_info;
            match lv {
                Some(li) => {
                    lemma_wf_get(m0, kl);
                    lemma_field_round(m1, kl, li.enc());
                },
                None => lemma_field_absent(m1, kl),
            }
            let kv = nm.kernelspec;
            match kv {
                Some(ks) => {
                    lemma_wf_get(m0, kk);
                    lemma_field_round(m0, kk, ks.enc());
                },
                None => lemma_field_absent(m0, kk),
            }
        }
    }
    Ok(nm)
}

/// Encode document metadata.
pub fn encode_notebook_metadata(nm: &NotebookMetadata) -> (r: JsonValue)
    ensures
        r.model() == nm.enc(),
{
    let o0 = obj_dup(&nm.other);
    let o1 = match &nm.authors {
        Some(aa) => {
            let mut arr: Vec<JsonValue> = Vec::new();
            let mut i: usize = 0;
            while i < aa.len()
                invariant
                    0 <= i <= aa@.len(),
                    arr@.len() == i,
                    forall|j: int| 0 <= j < i ==> (#[trigger] arr@[j].model()) == aa@[j].enc(),
                decreases aa@.len() - i,
            {
                arr.push(encode_author(&aa[i]));
                i += 1;
            }
            proof {
                assert forall|j: int| 0 <= j < aa@.len() implies arr_model(arr@)[j]
                    == authors_enc(aa@)[j] by {
                    assert(arr_model(arr@)[j] == arr@[j].model());
                }
                assert(arr_model(arr@) =~= authors_enc(aa@));
            }
            obj_with(&o0, "authors", JsonValue::Arr(arr))
        },
        None => o0,
    };
    let o2 = put_opt_str(o1, "title", &nm.title);
    let o3 = put_opt_num(o2, "orig_nbformat", match nm.orig_nbformat {
        Some(n) => Some(n as u64),
        None => None,
    });
    let o4 = match &nm.language_info {
        Some(li) => obj_with(&o3, "language_info", encode_language_info(li)),
        None => o3,
    };
    let o5 = match &nm.kernelspec {
        Some(ks) => obj_with(&o4, "kernelspec", encode_kernel_spec(ks)),
        None => o4,
    };
    JsonValue::Obj(o5)
}

// ---------------------------------------------------------------------------
// Outputs of code-cell execution.
// ---------------------------------------------------------------------------

/// A required field holding any object.
pub open spec fn req_obj_ok(o: Seq<(Seq<char>, JsonSpec)>, k: Seq<char>) -> bool {
    obj_get(o, k) matches Some(j) && j is Obj
}

/// A required field holding text content in either shape.
pub open spec fn req_ml_ok(o: Seq<(Seq<char>, JsonSpec)>, k: Seq<char>) -> bool {
    obj_get(o, k) matches Some(j) && multiline_ok(j)
}

/// Every element of an array is a string.
pub open spec fn str_arr_ok(elems: Seq<JsonSpec>) -> bool {
    forall|i: int| 0 <= i < elems.len() ==> (#[trigger] elems[i]) is Str
}

/// A required field holding an array of strings.
pub open spec fn req_str_arr_ok(o: Seq<(Seq<char>, JsonSpec)>, k: Seq<char>) -> bool {
    obj_get(o, k) matches Some(JsonSpec::Arr(a)) && str_arr_ok(a)
}

/// Decode an array of strings.
#[verifier::loop_isolation(false)]
fn decode_str_array(v: &JsonValue, what: &str) -> (r: Result<Vec<String>, Error>)
    ensures
        r is Ok <==> (v.model() matches JsonSpec::Arr(a) && str_arr_ok(a)),
        r matches Ok(ss) ==> JsonSpec::Arr(frags_enc(ss@)) == v.model(),
{
    match v {
        JsonValue::Arr(a) => {
            let mut out: Vec<String> = Vec::new();
            let mut i: usize = 0;
            while i < a.len()
                invariant
                    0 <= i <= a@.len(),
                    out@.len() == i,
                    forall|j: int| 0 <= j < i ==> arr_model(a@)[j] == JsonSpec::Str(
                        #[trigger] out@[j]@,
                    ),
                decreases a@.len() - i,
            {
                match &a[i] {
                    JsonValue::Str(ss) => {
                        out.push(ss.clone());
                    },
                    _ => {
                        proof {
                            let wi = i as int;
                            assert(!str_arr_ok(arr_model(a@))) by {
                                if str_arr_ok(arr_model(a@)) {
                                    assert(arr_model(a@)[wi] is Str);
                                    assert(false);
                                }
                            }
                        }
                        return Err(Error::Format(what.to_owned()));
                    },
                }
                i += 1;
            }
            proof {
                assert(frags_enc(out@) =~= arr_model(a@));
            }
            Ok(out)
        },
        _ => Err(Error::Format(what.to_owned())),
    }
}

/// Result of a REPL-style evaluation.
#[derive(Debug, PartialEq, Eq)]
pub struct OutputExecuteResult {
    /// Execution counter of the result.
    pub execution_count: Option<u32>,
    /// Data returned by the execution.
    pub data: MimeBundle,
    /// Metadata associated with the result.
    pub metadata: OutputMetadata,
    /// Additional unrecognized attributes, kept verbatim.
    pub other: Vec<JsonField>,
}

/// Side-channel display data.
#[derive(Debug, PartialEq, Eq)]
pub struct OutputDisplayData {
    /// Data to display.
    pub data: MimeBundle,
    /// Metadata associated with the display data.
    pub metadata: OutputMetadata,
    /// Additional unrecognized attributes, kept verbatim.
    pub other: Vec<JsonField>,
}

/// Captured stream text.
#[derive(Debug, PartialEq, Eq)]
pub struct OutputStream {
    /// Name of the stream.
    pub name: String,
    /// Text content of the stream.
    pub text: MultilineString,
    /// Additional unrecognized attributes, kept verbatim.
    pub other: Vec<JsonField>,
}

/// An error raised during execution.
#[derive(Debug, PartialEq, Eq)]
pub struct OutputError {
    /// Name of the error.
    pub ename: String,
    /// Value or message of the error.
    pub evalue: String,
    /// Traceback of the error, in order.
    pub traceback: Vec<String>,
    /// Additional unrecognized attributes, kept verbatim.
    pub other: Vec<JsonField>,
}

/// One execution output, discriminated by its tag.
#[derive(Debug, PartialEq, Eq)]
pub enum Output {
    /// Execution result output.
    ExecuteResult(OutputExecuteResult),
    /// Display data output.
    DisplayData(OutputDisplayData),
    /// Stream output.
    Stream(OutputStream),
    /// Error output.
    Error(OutputError),
}

/// The fields of an execute-result output.
pub open spec fn exec_result_fields_ok(o: Seq<(Seq<char>, JsonSpec)>) -> bool {
    req_str_of(o, "output_type"@) == "execute_result"@ && opt_num_ok(
        o,
        "execution_count"@,
        0xffff_ffff,
    ) && req_obj_ok(o, "data"@) && req_obj_ok(o, "metadata"@)
}

/// The fields of a display-data output.
pub open spec fn display_data_fields_ok(o: Seq<(Seq<char>, JsonSpec)>) -> bool {
    req_str_of(o, "output_type"@) == "display_data"@ && req_obj_ok(o, "data"@) && req_obj_ok(
        o,
        "metadata"@,
    )
}

/// The fields of a stream output.
pub open spec fn stream_fields_ok(o: Seq<(Seq<char>, JsonSpec)>) -> bool {
    req_str_of(o, "output_type"@) == "stream"@ && req_str_ok(o, "name"@) && req_ml_ok(o, "text"@)
}

/// The fields of an error output.
pub open spec fn error_fields_ok(o: Seq<(Seq<char>, JsonSpec)>) -> bool {
    req_str_of(o, "output_type"@) == "error"@ && req_str_ok(o, "ename"@) && req_str_ok(
        o,
        "evalue"@,
    ) && req_str_arr_ok(o, "traceback"@)
}

/// A JSON value in the shape of an output: its tag is one of the four
/// recognized values and the tagged fields conform.
pub open spec fn output_ok(j: JsonSpec) -> bool {
    j matches JsonSpec::Obj(o) && req_str_ok(o, "output_type"@) && {
        let t = req_str_of(o, "output_type"@);
        if t == "execute_result"@ {
            exec_result_fields_ok(o)
        } else if t == "display_data"@ {
            display_data_fields_ok(o)
        } else if t == "stream"@ {
            stream_fields_ok(o)
        } else if t == "error"@ {
            error_fields_ok(o)
        } else {
            false
        }
    }
}

/// An output that also round-trips exactly: its one optional field does
/// not stand as null.
pub open spec fn output_exact(j: JsonSpec) -> bool {
    output_ok(j) && !field_null(j->Obj_0, "execution_count"@)
}

impl OutputExecuteResult {
    /// The JSON object this output encodes to.
    pub open spec fn enc_obj(self) -> Seq<(Seq<char>, JsonSpec)> {
        let o1 = obj_insert(
            obj_model(self.other@),
            "metadata"@,
            JsonSpec::Obj(obj_model(self.metadata@)),
        );
        let o2 = obj_insert(o1, "data"@, JsonSpec::Obj(obj_model(self.data@)));
        let o3 = with_opt_num(o2, "execution_count"@, match self.execution_count {
            Some(n) => Some(n as int),
            None => None,
        });
        obj_insert(o3, "output_type"@, JsonSpec::Str("execute_result"@))
    }
}

impl OutputDisplayData {
    /// The JSON object this output encodes to.
    pub open spec fn enc_obj(self) -> Seq<(Seq<char>, JsonSpec)> {
        let o1 = obj_insert(
            obj_model(self.other@),
            "metadata"@,
            JsonSpec::Obj(obj_model(self.metadata@)),
        );
        let o2 = obj_insert(o1, "data"@, JsonSpec::Obj(obj_model(self.data@)));
        obj_insert(o2, "output_type"@, JsonSpec::Str("display_data"@))
    }
}

impl OutputStream {
    /// The JSON object this output encodes to.
    pub open spec fn enc_obj(self) -> Seq<(Seq<char>, JsonSpec)> {
        let o1 = obj_insert(obj_model(self.other@), "text"@, self.text.enc());
        let o2 = obj_insert(o1, "name"@, JsonSpec::Str(self.name@));
        obj_insert(o2, "output_type"@, JsonSpec::Str("stream"@))
    }
}

impl OutputError {
    /// The JSON object this output encodes to.
    pub open spec fn enc_obj(self) -> Seq<(Seq<char>, JsonSpec)> {
        let o1 = obj_insert(
            obj_model(self.other@),
            "traceback"@,
            JsonSpec::Arr(frags_enc(self.traceback@)),
        );
        let o2 = obj_insert(o1, "evalue"@, JsonSpec::Str(self.evalue@));
        let o3 = obj_insert(o2, "ename"@, JsonSpec::Str(self.ename@));
        obj_insert(o3, "output_type"@, JsonSpec::Str("error"@))
    }
}

impl Output {
    /// The JSON value this output encodes to.
    pub open spec fn enc(self) -> JsonSpec {
        match self {
            Output::ExecuteResult(x) => JsonSpec::Obj(x.enc_obj()),
            Output::DisplayData(x) => JsonSpec::Obj(x.enc_obj()),
            Output::Stream(x) => JsonSpec::Obj(x.enc_obj()),
            Output::Error(x) => JsonSpec::Obj(x.enc_obj()),
        }
    }
}

/// The decoded execute-result output corresponds to the source fields.
pub open spec fn exec_result_matches(x: OutputExecuteResult, m: Seq<(Seq<char>, JsonSpec)>) -> bool {
    (match x.execution_count {
        Some(n) => opt_num_of(m, "execution_count"@) == Some(n as int),
        None => opt_num_of(m, "execution_count"@) is None,
    }) && obj_get(m, "data"@) == Some(JsonSpec::Obj(obj_model(x.data@))) && obj_get(m, "metadata"@)
        == Some(JsonSpec::Obj(obj_model(x.metadata@))) && obj_model(x.other@) == obj_remove(
        obj_remove(obj_remove(obj_remove(m, "output_type"@), "execution_count"@), "data"@),
        "metadata"@,
    )
}

/// The decoded display-data output corresponds to the source fields.
pub open spec fn display_data_matches(x: OutputDisplayData, m: Seq<(Seq<char>, JsonSpec)>) -> bool {
    obj_get(m, "data"@) == Some(JsonSpec::Obj(obj_model(x.data@))) && obj_get(m, "metadata"@)
        == Some(JsonSpec::Obj(obj_model(x.metadata@))) && obj_model(x.other@) == obj_remove(
        obj_remove(obj_remove(m, "output_type"@), "data"@),
        "metadata"@,
    )
}

/// The decoded stream output corresponds to the source fields.
pub open spec fn stream_matches(x: OutputStream, m: Seq<(Seq<char>, JsonSpec)>) -> bool {
    x.name@ == req_str_of(m, "name"@) && obj_get(m, "text"@) == Some(x.text.enc())
        && obj_model(x.other@) == obj_remove(
        obj_remove(obj_remove(m, "output_type"@), "name"@),
        "text"@,
    )
}

/// The decoded error output corresponds to the source fields, with the
/// traceback kept in order.
pub open spec fn error_output_matches(x: OutputError, m: Seq<(Seq<char>, JsonSpec)>) -> bool {
    x.ename@ == req_str_of(m, "ename"@) && x.evalue@ == req_str_of(m, "evalue"@) && obj_get(
        m,
        "traceback"@,
    ) == Some(JsonSpec::Arr(frags_enc(x.traceback@))) && obj_model(x.other@) == obj_remove(
        obj_remove(obj_remove(obj_remove(m, "output_type"@), "ename"@), "evalue"@),
        "traceback"@,
    )
}

/// The decoded output corresponds to the JSON: the variant follows the
/// tag, and the variant's fields correspond in turn.
pub open spec fn output_matches(out: Output, j: JsonSpec) -> bool {
    j matches JsonSpec::Obj(m) && (match out {
        Output::ExecuteResult(x) => req_str_of(m, "output_type"@) == "execute_result"@
            && exec_result_matches(x, m),
        Output::DisplayData(x) => req_str_of(m, "output_type"@) == "display_data"@
            && display_data_matches(x, m),
        Output::Stream(x) => req_str_of(m, "output_type"@) == "stream"@ && stream_matches(x, m),
        Output::Error(x) => req_str_of(m, "output_type"@) == "error"@ && error_output_matches(x, m),
    })
}

proof fn lemma_exec_result_keys()
    ensures
        "output_type"@ != "execution_count"@,
        "output_type"@ != "data"@,
        "output_type"@ != "metadata"@,
        "execution_count"@ != "data"@,
        "execution_count"@ != "metadata"@,
        "data"@ != "metadata"@,
{
    reveal_strlit("output_type");
    reveal_strlit("execution_count");
    reveal_strlit("data");
    reveal_strlit("metadata");
    assert("output_type"@.len() == 11);
    assert("execution_count"@.len() == 15);
    assert("data"@.len() == 4);
    assert("metadata"@.len() == 8);
}

proof fn lemma_stream_keys()
    ensures
        "output_type"@ != "name"@,
        "output_type"@ != "text"@,
        "name"@ != "text"@,
{
    reveal_strlit("output_type");
    reveal_strlit("name");
    reveal_strlit("text");
    assert("output_type"@.len() == 11);
    assert("name"@.len() == 4);
    assert("text"@.len() == 4);
    assert("name"@[0] == 'n');
    assert("text"@[0] == 't');
}

proof fn lemma_error_keys()
    ensures
        "output_type"@ != "ename"@,
        "output_type"@ != "evalue"@,
        "output_type"@ != "traceback"@,
        "ename"@ != "evalue"@,
        "ename"@ != "traceback"@,
        "evalue"@ != "traceback"@,
{
    reveal_strlit("output_type");
    reveal_strlit("ename");
    reveal_strlit("evalue");
    reveal_strlit("traceback");
    assert("output_type"@.len() == 11);
    assert("ename"@.len() == 5);
    assert("evalue"@.len() == 6);
    assert("traceback"@.len() == 9);
}

fn decode_output_execute_result(o: &Vec<JsonField>) -> (r: Result<OutputExecuteResult, Error>)
    requires
        req_str_of(obj_model(o@), "output_type"@) == "execute_result"@,
        req_str_ok(obj_model(o@), "output_type"@),
    ensures
        r is Ok <==> exec_result_fields_ok(obj_model(o@)),
        r matches Ok(x) ==> exec_result_matches(x, obj_model(o@)),
        r matches Ok(x) ==> (wf_json(JsonSpec::Obj(obj_model(o@))) && !field_null(
            obj_model(o@),
            "execution_count"@,
        ) ==> JsonSpec::Obj(x.enc_obj()) == JsonSpec::Obj(obj_model(o@))),
{
    let execution_count = match take_opt_num(o, "execution_count", 0xffff_ffff)? {
        Some(n) => Some(n as u32),
        None => None,
    };
    let data = match obj_find(o, "data") {
        Some(vv) => decode_obj_fields(vv, "data: expected object")?,
        Option::None => {
            return Err(Error::Format("data".to_owned()));
        },
    };
    let metadata = match obj_find(o, "metadata") {
        Some(vv) => decode_obj_fields(vv, "metadata: expected object")?,
        Option::None => {
            return Err(Error::Format("metadata".to_owned()));
        },
    };
    let r1 = obj_without(o, "output_type");
    let r2 = obj_without(&r1, "execution_count");
    let r3 = obj_without(&r2, "data");
    let rest = obj_without(&r3, "metadata");
    let x = OutputExecuteResult { execution_count, data, metadata, other: rest };
    proof {
        let m0 = obj_model(o@);
        if wf_json(JsonSpec::Obj(m0)) && !field_null(m0, "execution_count"@) {
            lemma_exec_result_keys();
            let kt = "output_type"@;
            let ke = "execution_count"@;
            let kd = "data"@;
            let km = "metadata"@;
            let m1 = obj_remove(m0, kt);
            let m2 = obj_remove(m1, ke);
            let m3 = obj_remove(m2, kd);
            lemma_remove_preserves_get(m0, kt, ke);
            lemma_remove_preserves_get(m0, kt, kd);
            lemma_remove_preserves_get(m0, kt, km);
            lemma_remove_preserves_get(m1, ke, kd);
            lemma_remove_preserves_get(m1, ke, km);
            lemma_remove_preserves_get(m2, kd, km);
            lemma_remove_sorted(m0, kt);
            lemma_remove_sorted(m1, ke);
            lemma_remove_sorted(m2, kd);
            lemma_field_round(m3, km, JsonSpec::Obj(obj_model(x.metadata@)));
            lemma_field_round(m2, kd, JsonSpec::Obj(obj_model(x.data@)));
            let ec = x.execution_count;
            match ec {
                Some(n) => {
                    let ns = obj_get(m1, ke)->Some_0->Num_0;
                    lemma_canon_unique(ns);
                    lemma_field_round(m1, ke, JsonSpec::Num(ns));
                },
                None => lemma_field_absent(m1, ke),
            }
            lemma_field_round(m0, kt, JsonSpec::Str("execute_result"@));
        }
    }
    Ok(x)
}

fn decode_output_display_data(o: &Vec<JsonField>) -> (r: Result<OutputDisplayData, Error>)
    requires
        req_str_of(obj_model(o@), "output_type"@) == "display_data"@,
        req_str_ok(obj_model(o@), "output_type"@),
    ensures
        r is Ok <==> display_data_fields_ok(obj_model(o@)),
        r matches Ok(x) ==> display_data_matches(x, obj_model(o@)),
        r matches Ok(x) ==> (wf_json(JsonSpec::Obj(obj_model(o@))) ==> JsonSpec::Obj(x.enc_obj())
            == JsonSpec::Obj(obj_model(o@))),
{
    let data = match obj_find(o, "data") {
        Some(vv) => decode_obj_fields(vv, "data: expected object")?,
        Option::None => {
            return Err(Error::Format("data".to_owned()));
        },
    };
    let metadata = match obj_find(o, "metadata") {
        Some(vv) => decode_obj_fields(vv, "metadata: expected object")?,
        Option::None => {
            return Err(Error::Format("metadata".to_owned()));
        },
    };
    let r1 = obj_without(o, "output_type");
    let r2 = obj_without(&r1, "data");
    let rest = obj_without(&r2, "metadata");
    let x = OutputDisplayData { data, metadata, other: rest };
    proof {
        let m0 = obj_model(o@);
        if wf_json(JsonSpec::Obj(m0)) {
            lemma_exec_result_keys();
            let kt = "output_type"@;
            let kd = "data"@;
            let km = "metadata"@;
            let m1 = obj_remove(m0, kt);
            let m2 = obj_remove(m1, kd);
            lemma_remove_preserves_get(m0, kt, kd);
            lemma_remove_preserves_get(m0, kt, km);
            lemma_remove_preserves_get(m1, kd, km);
            lemma_remove_sorted(m0, kt);
            lemma_remove_sorted(m1, kd);
            lemma_field_round(m2, km, JsonSpec::Obj(obj_model(x.metadata@)));
            lemma_field_round(m1, kd, JsonSpec::Obj(obj_model(x.data@)));
            lemma_field_round(m0, kt, JsonSpec::Str("display_data"@));
        }
    }
    Ok(x)
}

fn decode_output_stream(o: &Vec<JsonField>) -> (r: Result<OutputStream, Error>)
    requires
        req_str_of(obj_model(o@), "output_type"@) == "stream"@,
        req_str_ok(obj_model(o@), "output_type"@),
    ensures
        r is Ok <==> stream_fields_ok(obj_model(o@)),
        r matches Ok(x) ==> stream_matches(x, obj_model(o@)),
        r matches Ok(x) ==> (wf_json(JsonSpec::Obj(obj_model(o@))) ==> JsonSpec::Obj(x.enc_obj())
            == JsonSpec::Obj(obj_model(o@))),
{
    let name = take_req_str(o, "name")?;
    let text = match obj_find(o, "text") {
        Some(vv) => decode_multiline(vv)?,
        Option::None => {
            return Err(Error::Format("text".to_owned()));
        },
    };
    let r1 = obj_without(o, "output_type");
    let r2 = obj_without(&r1, "name");
    let rest = obj_without(&r2, "text");
    let x = OutputStream { name, text, other: rest };
    proof {
        let m0 = obj_model(o@);
        if wf_json(JsonSpec::Obj(m0)) {
            lemma_stream_keys();
            let kt = "output_type"@;
            let kn = "name"@;
            let kx = "text"@;
            let m1 = obj_remove(m0, kt);
            let m2 = obj_remove(m1, kn);
            lemma_remove_preserves_get(m0, kt, kn);
            lemma_remove_preserves_get(m0, kt, kx);
            lemma_remove_preserves_get(m1, kn, kx);
            lemma_remove_sorted(m0, kt);
            lemma_remove_sorted(m1, kn);
            lemma_field_round(m2, kx, x.text.enc());
            lemma_field_round(m1, kn, JsonSpec::Str(x.name@));
            lemma_field_round(m0, kt, JsonSpec::Str("stream"@));
        }
    }
    Ok(x)
}

fn decode_output_error(o: &Vec<JsonField>) -> (r: Result<OutputError, Error>)
    requires
        req_str_of(obj_model(o@), "output_type"@) == "error"@,
        req_str_ok(obj_model(o@), "output_type"@),
    ensures
        r is Ok <==> error_fields_ok(obj_model(o@)),
        r matches Ok(x) ==> error_output_matches(x, obj_model(o@)),
        r matches Ok(x) ==> (wf_json(JsonSpec::Obj(obj_model(o@))) ==> JsonSpec::Obj(x.enc_obj())
            == JsonSpec::Obj(obj_model(o@))),
{
    let ename = take_req_str(o, "ename")?;
    let evalue = take_req_str(o, "evalue")?;
    let traceback = match obj_find(o, "traceback") {
        Some(vv) => decode_str_array(vv, "traceback: expected array of strings")?,
        Option::None => {
            return Err(Error::Format("traceback".to_owned()));
        },
    };
    let r1 = obj_without(o, "output_type");
    let r2 = obj_without(&r1, "ename");
    let r3 = obj_without(&r2, "evalue");
    let rest = obj_without(&r3, "traceback");
    let x = OutputError { ename, evalue, traceback, other: rest };
    proof {
        let m0 = obj_model(o@);
        if wf_json(JsonSpec::Obj(m0)) {
            lemma_error_keys();
            let kt = "output_type"@;
            let kn = "ename"@;
            let kv = "evalue"@;
            let kb = "traceback"@;
            let m1 = obj_remove(m0, kt);
            let m2 = obj_remove(m1, kn);
            let m3 = obj_remove(m2, kv);
            lemma_remove_preserves_get(m0, kt, kn);
            lemma_remove_preserves_get(m0, kt, kv);
            lemma_remove_preserves_get(m0, kt, kb);
            lemma_remove_preserves_get(m1, kn, kv);
            lemma_remove_preserves_get(m1, kn, kb);
            lemma_remove_preserves_get(m2, kv, kb);
            lemma_remove_sorted(m0, kt);
            lemma_remove_sorted(m1, kn);
            lemma_remove_sorted(m2, kv);
            lemma_field_round(m3, kb, JsonSpec::Arr(frags_enc(x.traceback@)));
            lemma_field_round(m2, kv, JsonSpec::Str(x.evalue@));
            lemma_field_round(m1, kn, JsonSpec::Str(x.ename@));
            lemma_field_round(m0, kt, JsonSpec::Str("error"@));
        }
    }
    Ok(x)
}

/// Decode one output; an unknown or missing `output_type` tag is an
/// error, never a fallback.
pub fn decode_output(v: &JsonValue) -> (r: Result<Output, Error>)
    ensures
        r is Ok <==> output_ok(v.model()),
        r matches Ok(out) ==> output_matches(out, v.model()),
        r matches Ok(out) ==> (wf_json(v.model()) && output_exact(v.model()) ==> out.enc()
            == v.model()),
{
    let o = match v {
        JsonValue::Obj(o) => o,
        _ => {
            return Err(Error::Format("output: expected object".to_owned()));
        },
    };
    let tag = take_req_str(o, "output_type")?;
    if str_eq(tag.as_str(), "execute_result") {
        Ok(Output::ExecuteResult(decode_output_execute_result(o)?))
    } else if str_eq(tag.as_str(), "display_data") {
        Ok(Output::DisplayData(decode_output_display_data(o)?))
    } else if str_eq(tag.as_str(), "stream") {
        Ok(Output::Stream(decode_output_stream(o)?))
    } else if str_eq(tag.as_str(), "error") {
        Ok(Output::Error(decode_output_error(o)?))
    } else {
        Err(Error::Format("output_type: unrecognized tag".to_owned()))
    }
}

/// Encode one output.
pub fn encode_output(out: &Output) -> (r: JsonValue)
    ensures
        r.model() == out.enc(),
{
    match out {
        Output::ExecuteResult(x) => {
            let o1 = obj_with(
                &x.other,
                "metadata",
                JsonValue::Obj(obj_dup(&x.metadata)),
            );
            let o2 = obj_with(&o1, "data", JsonValue::Obj(obj_dup(&x.data)));
            let o3 = put_opt_num(o2, "execution_count", match x.execution_count {
                Some(n) => Some(n as u64),
                None => None,
            });
            let o4 = obj_with(&o3, "output_type", JsonValue::Str("execute_result".to_owned()));
            JsonValue::Obj(o4)
        },
        Output::DisplayData(x) => {
            let o1 = obj_with(
                &x.other,
                "metadata",
                JsonValue::Obj(obj_dup(&x.metadata)),
            );
            let o2 = obj_with(&o1, "data", JsonValue::Obj(obj_dup(&x.data)));
            let o3 = obj_with(&o2, "output_type", JsonValue::Str("display_data".to_owned()));
            JsonValue::Obj(o3)
        },
        Output::Stream(x) => {
            let o1 = obj_with(&x.other, "text", encode_multiline(&x.text));
            let o2 = obj_with(&o1, "name", JsonValue::Str(x.name.clone()));
            let o3 = obj_with(&o2, "output_type", JsonValue::Str("stream".to_owned()));
            JsonValue::Obj(o3)
        },
        Output::Error(x) => {
            let mut tb: Vec<JsonValue> = Vec::new();
            let mut i: usize = 0;
            while i < x.traceback.len()
                invariant
                    0 <= i <= x.traceback@.len(),
                    tb@.len() == i,
                    forall|j: int| 0 <= j < i ==> (#[trigger] tb@[j].model()) == JsonSpec::Str(
                        x.traceback@[j]@,
                    ),
                decreases x.traceback@.len() - i,
            {
                tb.push(JsonValue::Str(x.traceback[i].clone()));
                i += 1;
            }
            proof {
                assert forall|j: int| 0 <= j < x.traceback@.len() implies arr_model(tb@)[j]
                    == frags_enc(x.traceback@)[j] by {
                    assert(arr_model(tb@)[j] == tb@[j].model());
                }
                assert(arr_model(tb@) =~= frags_enc(x.traceback@));
            }
            let o1 = obj_with(&x.other, "traceback", JsonValue::Arr(tb));
            let o2 = obj_with(&o1, "evalue", JsonValue::Str(x.evalue.clone()));
            let o3 = obj_with(&o2, "ename", JsonValue::Str(x.ename.clone()));
            let o4 = obj_with(&o3, "output_type", JsonValue::Str("error".to_owned()));
            JsonValue::Obj(o4)
        },
    }
}

// ---------------------------------------------------------------------------
// Cells.
// ---------------------------------------------------------------------------

/// Every value of an attachment object is itself an object.
pub open spec fn att_fields_ok(o: Seq<(Seq<char>, JsonSpec)>) -> bool {
    forall|i: int| 0 <= i < o.len() ==> (#[trigger] o[i].1) is Obj
}

/// The JSON object of an attachment bundle.
pub open spec fn att_enc(a: Seq<(String, Vec<JsonField>)>) -> Seq<(Seq<char>, JsonSpec)> {
    Seq::new(a.len(), |i: int| (a[i].0@, JsonSpec::Obj(obj_model(a[i].1@))))
}

/// An optional field holding an attachment bundle.
pub open spec fn opt_att_ok(o: Seq<(Seq<char>, JsonSpec)>, k: Seq<char>) -> bool {
    match obj_get(o, k) {
        Option::None => true,
        Option::Some(j) => j is Null || (j matches JsonSpec::Obj(f) && att_fields_ok(f)),
    }
}

/// Decode an attachment bundle: filenames to MIME bundles.
#[verifier::loop_isolation(false)]
fn decode_attachments(v: &JsonValue) -> (r: Result<CellAttachments, Error>)
    ensures
        r is Ok <==> (v.model() matches JsonSpec::Obj(f) && att_fields_ok(f)),
        r matches Ok(a) ==> JsonSpec::Obj(att_enc(a@)) == v.model(),
{
    match v {
        JsonValue::Obj(o) => {
            let ghost m = obj_model(o@);
            let mut out: Vec<(String, MimeBundle)> = Vec::new();
            let mut i: usize = 0;
            while i < o.len()
                invariant
                    0 <= i <= o@.len(),
                    out@.len() == i,
                    forall|j: int| 0 <= j < i ==> (#[trigger] att_enc(out@)[j]) == m[j],
                decreases o@.len() - i,
            {
                let f = &o[i];
                match &f.value {
                    JsonValue::Obj(inner) => {
                        let ghost before = out@;
                        out.push((f.key.clone(), obj_dup(inner)));
                        proof {
                            assert forall|j: int| 0 <= j < i + 1 implies (#[trigger] att_enc(
                                out@,
                            )[j]) == m[j] by {
                                if j < i {
                                    assert(att_enc(before)[j] == m[j]);
                                    assert(out@[j] == before[j]);
                                }
                            }
                        }
                    },
                    _ => {
                        proof {
                            let wi = i as int;
                            assert(m[wi].1 == o@[wi].value.model());
                            assert(!att_fields_ok(m)) by {
                                if att_fields_ok(m) {
                                    assert(m[wi].1 is Obj);
                                    assert(false);
                                }
                            }
                        }
                        return Err(Error::Format(
                            "attachments: expected object of objects".to_owned(),
                        ));
                    },
                }
                i += 1;
            }
            proof {
                assert(att_enc(out@) =~= m);
            }
            Ok(out)
        },
        _ => Err(Error::Format("attachments: expected object".to_owned())),
    }
}

/// Encode an attachment bundle.
#[verifier::loop_isolation(false)]
fn encode_attachments(a: &CellAttachments) -> (r: JsonValue)
    ensures
        r.model() == JsonSpec::Obj(att_enc(a@)),
{
    let mut out: Vec<JsonField> = Vec::new();
    let mut i: usize = 0;
    while i < a.len()
        invariant
            0 <= i <= a@.len(),
            out@.len() == i,
            forall|j: int| 0 <= j < i ==> (#[trigger] obj_model(out@)[j]) == att_enc(a@)[j],
        decreases a@.len() - i,
    {
        let e = &a[i];
        let ghost before = out@;
        out.push(JsonField { key: e.0.clone(), value: JsonValue::Obj(obj_dup(&e.1)) });
        proof {
            assert forall|j: int| 0 <= j < i + 1 implies (#[trigger] obj_model(out@)[j]) == att_enc(
                a@,
            )[j] by {
                if j < i {
                    assert(obj_model(before)[j] == att_enc(a@)[j]);
                    assert(out@[j] == before[j]);
                }
            }
        }
        i += 1;
    }
    proof {
        assert(obj_model(out@) =~= att_enc(a@));
    }
    JsonValue::Obj(out)
}

/// A raw, non-executable cell.
#[derive(Debug, PartialEq, Eq)]
pub struct RawCell {
    /// Identifier of the cell.
    pub id: Option<String>,
    /// Metadata for the cell.
    pub metadata: CellMetadata,
    /// Content of the cell.
    pub source: MultilineString,
    /// Attachments embedded in the cell.
    pub attachments: Option<CellAttachments>,
}

/// A narrative-text cell.
#[derive(Debug, PartialEq, Eq)]
pub struct MarkdownCell {
    /// Identifier of the cell.
    pub id: Option<String>,
    /// Metadata for the cell.
    pub metadata: CellMetadata,
    /// Content of the cell.
    pub source: MultilineString,
    /// Attachments embedded in the cell.
    pub attachments: Option<CellAttachments>,
}

/// An executable code cell with its outputs.
#[derive(Debug, PartialEq, Eq)]
pub struct CodeCell {
    /// Identifier of the cell.
    pub id: Option<String>,
    /// Metadata for the cell.
    pub metadata: CellMetadata,
    /// Content of the cell.
    pub source: MultilineString,
    /// Execution counter; absent when the cell never ran.
    pub execution_count: Option<u32>,
    /// Outputs from executing the cell, in emission order.
    pub outputs: Vec<Output>,
}

/// One notebook cell, discriminated by its tag.
#[derive(Debug, PartialEq, Eq)]
pub enum Cell {
    /// Raw cell.
    Raw(RawCell),
    /// Markdown cell.
    Markdown(MarkdownCell),
    /// Code cell.
    Code(CodeCell),
}

/// Every element of an output array conforms.
pub open spec fn outputs_arr_ok(elems: Seq<JsonSpec>) -> bool {
    forall|i: int| 0 <= i < elems.len() ==> output_ok(#[trigger] elems[i])
}

/// Every element of an output array round-trips exactly.
pub open spec fn outputs_arr_exact(elems: Seq<JsonSpec>) -> bool {
    forall|i: int| 0 <= i < elems.len() ==> output_exact(#[trigger] elems[i])
}

/// The JSON values of an output list.
pub open spec fn outputs_enc(a: Seq<Output>) -> Seq<JsonSpec> {
    Seq::new(a.len(), |i: int| a[i].enc())
}

/// Fields shared by raw and markdown cells, under the given tag.
pub open spec fn text_cell_fields_ok(o: Seq<(Seq<char>, JsonSpec)>, tag: Seq<char>) -> bool {
    req_str_of(o, "cell_type"@) == tag && opt_str_ok(o, "id"@) && (obj_get(o, "metadata"@)
        matches Some(mj) && mj is Obj) && req_ml_ok(o, "source"@) && opt_att_ok(o, "attachments"@)
}

/// The fields of a code cell.
pub open spec fn code_cell_fields_ok(o: Seq<(Seq<char>, JsonSpec)>) -> bool {
    req_str_of(o, "cell_type"@) == "code"@ && opt_str_ok(o, "id"@) && (obj_get(o, "metadata"@)
        matches Some(mj) && mj is Obj) && req_ml_ok(o, "source"@) && opt_num_ok(
        o,
        "execution_count"@,
        0xffff_ffff,
    ) && (obj_get(o, "outputs"@) matches Some(JsonSpec::Arr(a)) && outputs_arr_ok(a))
}

/// Raw and markdown cells recognize these keys; others are ignored on
/// decode, so exact round trips admit no other key.
pub open spec fn text_cell_keys_only(o: Seq<(Seq<char>, JsonSpec)>) -> bool {
    forall|i: int|
        0 <= i < o.len() ==> ((#[trigger] o[i].0) == "cell_type"@ || o[i].0 == "id"@ || o[i].0
            == "metadata"@ || o[i].0 == "source"@ || o[i].0 == "attachments"@)
}

/// The keys a code cell recognizes.
pub open spec fn code_cell_keys_only(o: Seq<(Seq<char>, JsonSpec)>) -> bool {
    forall|i: int|
        0 <= i < o.len() ==> ((#[trigger] o[i].0) == "cell_type"@ || o[i].0 == "id"@ || o[i].0
            == "metadata"@ || o[i].0 == "source"@ || o[i].0 == "execution_count"@ || o[i].0
            == "outputs"@)
}

/// A JSON value in the shape of a cell: its tag is one of the three
/// recognized values and the tagged fields conform.
pub open spec fn cell_ok(j: JsonSpec) -> bool {
    j matches JsonSpec::Obj(o) && req_str_ok(o, "cell_type"@) && {
        let t = req_str_of(o, "cell_type"@);
        if t == "raw"@ {
            text_cell_fields_ok(o, "raw"@)
        } else if t == "markdown"@ {
            text_cell_fields_ok(o, "markdown"@)
        } else if t == "code"@ {
            code_cell_fields_ok(o)
        } else {
            false
        }
    }
}

/// A cell that also round-trips exactly: no optional field stands as
/// null, no unrecognized key stands anywhere, and nested outputs are
/// exact.
pub open spec fn cell_exact(j: JsonSpec) -> bool {
    cell_ok(j) && {
        let o = j->Obj_0;
        let t = req_str_of(o, "cell_type"@);
        !field_null(o, "id"@) && !field_null(o, "attachments"@) && !field_null(
            o,
            "execution_count"@,
        ) && (if t == "code"@ {
            code_cell_keys_only(o) && (obj_get(o, "outputs"@) matches Some(JsonSpec::Arr(a))
                && outputs_arr_exact(a))
        } else {
            text_cell_keys_only(o)
        })
    }
}

impl RawCell {
    /// The JSON object this cell encodes to: exactly its fields.
    pub open spec fn enc_obj(self) -> Seq<(Seq<char>, JsonSpec)> {
        let o0 = Seq::<(Seq<char>, JsonSpec)>::empty();
        let o1 = match self.attachments {
            Some(a) => obj_insert(o0, "attachments"@, JsonSpec::Obj(att_enc(a@))),
            None => o0,
        };
        let o2 = obj_insert(o1, "source"@, self.source.enc());
        let o3 = obj_insert(o2, "metadata"@, self.metadata.enc());
        let o4 = with_opt_str(o3, "id"@, self.id);
        obj_insert(o4, "cell_type"@, JsonSpec::Str("raw"@))
    }
}

impl MarkdownCell {
    /// The JSON object this cell encodes to: exactly its fields.
    pub open spec fn enc_obj(self) -> Seq<(Seq<char>, JsonSpec)> {
        let o0 = Seq::<(Seq<char>, JsonSpec)>::empty();
        let o1 = match self.attachments {
            Some(a) => obj_insert(o0, "attachments"@, JsonSpec::Obj(att_enc(a@))),
            None => o0,
        };
        let o2 = obj_insert(o1, "source"@, self.source.enc());
        let o3 = obj_insert(o2, "metadata"@, self.metadata.enc());
        let o4 = with_opt_str(o3, "id"@, self.id);
        obj_insert(o4, "cell_type"@, JsonSpec::Str("markdown"@))
    }
}

impl CodeCell {
    /// The JSON object this cell encodes to: exactly its fields.
    pub open spec fn enc_obj(self) -> Seq<(Seq<char>, JsonSpec)> {
        let o0 = Seq::<(Seq<char>, JsonSpec)>::empty();
        let o1 = obj_insert(o0, "outputs"@, JsonSpec::Arr(outputs_enc(self.outputs@)));
        let o2 = with_opt_num(o1, "execution_count"@, match self.execution_count {
            Some(n) => Some(n as int),
            None => None,
        });
        let o3 = obj_insert(o2, "source"@, self.source.enc());
        let o4 = obj_insert(o3, "metadata"@, self.metadata.enc());
        let o5 = with_opt_str(o4, "id"@, self.id);
        obj_insert(o5, "cell_type"@, JsonSpec::Str("code"@))
    }
}

impl Cell {
    /// The JSON value this cell encodes to.
    pub open spec fn enc(self) -> JsonSpec {
        match self {
            Cell::Raw(c) => JsonSpec::Obj(c.enc_obj()),
            Cell::Markdown(c) => JsonSpec::Obj(c.enc_obj()),
            Cell::Code(c) => JsonSpec::Obj(c.enc_obj()),
        }
    }
}

/// The decoded raw cell corresponds to the source fields.
pub open spec fn raw_cell_matches(c: RawCell, m: Seq<(Seq<char>, JsonSpec)>) -> bool {
    (match c.id {
        Some(s) => opt_str_of(m, "id"@) == Some(s@),
        None => opt_str_of(m, "id"@) is None,
    }) && obj_get(m, "metadata"@) == Some(c.metadata.enc()) && obj_get(m, "source"@) == Some(
        c.source.enc(),
    ) && (match c.attachments {
        Some(a) => obj_get(m, "attachments"@) == Some(JsonSpec::Obj(att_enc(a@))),
        None => obj_get(m, "attachments"@) is None || field_null(m, "attachments"@),
    })
}

/// The decoded markdown cell corresponds to the source fields.
pub open spec fn markdown_cell_matches(c: MarkdownCell, m: Seq<(Seq<char>, JsonSpec)>) -> bool {
    (match c.id {
        Some(s) => opt_str_of(m, "id"@) == Some(s@),
        None => opt_str_of(m, "id"@) is None,
    }) && obj_get(m, "metadata"@) == Some(c.metadata.enc()) && obj_get(m, "source"@) == Some(
        c.source.enc(),
    ) && (match c.attachments {
        Some(a) => obj_get(m, "attachments"@) == Some(JsonSpec::Obj(att_enc(a@))),
        None => obj_get(m, "attachments"@) is None || field_null(m, "attachments"@),
    })
}

/// The decoded code cell corresponds to the source fields, with the
/// outputs kept in the source array's order and length.
pub open spec fn code_cell_matches(c: CodeCell, m: Seq<(Seq<char>, JsonSpec)>) -> bool {
    (match c.id {
        Some(s) => opt_str_of(m, "id"@) == Some(s@),
        None => opt_str_of(m, "id"@) is None,
    }) && obj_get(m, "metadata"@) == Some(c.metadata.enc()) && obj_get(m, "source"@) == Some(
        c.source.enc(),
    ) && (match c.execution_count {
        Some(n) => opt_num_of(m, "execution_count"@) == Some(n as int),
        None => opt_num_of(m, "execution_count"@) is None,
    }) && (obj_get(m, "outputs"@) matches Some(JsonSpec::Arr(elems)) && c.outputs@.len()
        == elems.len() && forall|i: int|
        0 <= i < elems.len() ==> output_matches(#[trigger] c.outputs@[i], elems[i]))
}

/// The decoded cell corresponds to the JSON: the variant follows the tag,
/// and the variant's fields correspond in turn.
pub open spec fn cell_matches(c: Cell, j: JsonSpec) -> bool {
    j matches JsonSpec::Obj(m) && (match c {
        Cell::Raw(x) => req_str_of(m, "cell_type"@) == "raw"@ && raw_cell_matches(x, m),
        Cell::Markdown(x) => req_str_of(m, "cell_type"@) == "markdown"@ && markdown_cell_matches(
            x,
            m,
        ),
        Cell::Code(x) => req_str_of(m, "cell_type"@) == "code"@ && code_cell_matches(x, m),
    })
}

/// The keys a cell recognizes are pairwise distinct.
proof fn lemma_cell_keys()
    ensures
        "cell_type"@ != "id"@,
        "cell_type"@ != "metadata"@,
        "cell_type"@ != "source"@,
        "cell_type"@ != "attachments"@,
        "cell_type"@ != "execution_count"@,
        "cell_type"@ != "outputs"@,
        "id"@ != "metadata"@,
        "id"@ != "source"@,
        "id"@ != "attachments"@,
        "id"@ != "execution_count"@,
        "id"@ != "outputs"@,
        "metadata"@ != "source"@,
        "metadata"@ != "attachments"@,
        "metadata"@ != "execution_count"@,
        "metadata"@ != "outputs"@,
        "source"@ != "attachments"@,
        "source"@ != "execution_count"@,
        "source"@ != "outputs"@,
        "attachments"@ != "execution_count"@,
        "attachments"@ != "outputs"@,
        "execution_count"@ != "outputs"@,
{
    reveal_strlit("cell_type");
    reveal_strlit("id");
    reveal_strlit("metadata");
    reveal_strlit("source");
    reveal_strlit("attachments");
    reveal_strlit("execution_count");
    reveal_strlit("outputs");
    assert("cell_type"@.len() == 9);
    assert("id"@.len() == 2);
    assert("metadata"@.len() == 8);
    assert("source"@.len() == 6);
    assert("attachments"@.len() == 11);
    assert("execution_count"@.len() == 15);
    assert("outputs"@.len() == 7);
}

/// After removing every key a text cell recognizes, nothing remains.
proof fn lemma_text_cell_rest_empty(m0: Seq<(Seq<char>, JsonSpec)>)
    requires
        text_cell_keys_only(m0),
    ensures
        obj_remove(
            obj_remove(obj_remove(obj_remove(obj_remove(m0, "cell_type"@), "id"@), "metadata"@), "source"@),
            "attachments"@,
        ) == Seq::<(Seq<char>, JsonSpec)>::empty(),
{
    lemma_cell_keys();
    let kc = "cell_type"@;
    let ki = "id"@;
    let km = "metadata"@;
    let ks = "source"@;
    let ka = "attachments"@;
    let m1 = obj_remove(m0, kc);
    let m2 = obj_remove(m1, ki);
    let m3 = obj_remove(m2, km);
    let m4 = obj_remove(m3, ks);
    let m5 = obj_remove(m4, ka);
    if m5.len() > 0 {
        let x = m5[0].0;
        lemma_remove_keys_subset(m4, ka);
        assert(in_keys(m4, x));
        let i4 = choose|i: int| 0 <= i < m4.len() && m4[i].0 == x;
        lemma_remove_keys_subset(m3, ks);
        assert(in_keys(m3, x));
        let i3 = choose|i: int| 0 <= i < m3.len() && m3[i].0 == x;
        lemma_remove_keys_subset(m2, km);
        assert(in_keys(m2, x));
        let i2 = choose|i: int| 0 <= i < m2.len() && m2[i].0 == x;
        lemma_remove_keys_subset(m1, ki);
        assert(in_keys(m1, x));
        let i1 = choose|i: int| 0 <= i < m1.len() && m1[i].0 == x;
        lemma_remove_keys_subset(m0, kc);
        assert(in_keys(m0, x));
        let i0 = choose|i: int| 0 <= i < m0.len() && m0[i].0 == x;
        assert(x == kc || x == ki || x == km || x == ks || x == ka);
        lemma_remove_gone(m0, kc);
        lemma_remove_preserves_get(m1, ki, kc);
        lemma_remove_preserves_get(m2, km, kc);
        lemma_remove_preserves_get(m3, ks, kc);
        lemma_remove_preserves_get(m4, ka, kc);
        lemma_remove_gone(m1, ki);
        lemma_remove_preserves_get(m2, km, ki);
        lemma_remove_preserves_get(m3, ks, ki);
        lemma_remove_preserves_get(m4, ka, ki);
        lemma_remove_gone(m2, km);
        lemma_remove_preserves_get(m3, ks, km);
        lemma_remove_preserves_get(m4, ka, km);
        lemma_remove_gone(m3, ks);
        lemma_remove_preserves_get(m4, ka, ks);
        lemma_remove_gone(m4, ka);
        assert(obj_get(m5, x) is Some);
        assert(false);
    }
    assert(m5 =~= Seq::<(Seq<char>, JsonSpec)>::empty());
}

/// After removing every key a code cell recognizes, nothing remains.
proof fn lemma_code_cell_rest_empty(m0: Seq<(Seq<char>, JsonSpec)>)
    requires
        code_cell_keys_only(m0),
    ensures
        obj_remove(
            obj_remove(
                obj_remove(
                    obj_remove(obj_remove(obj_remove(m0, "cell_type"@), "id"@), "metadata"@),
                    "source"@,
                ),
                "execution_count"@,
            ),
            "outputs"@,
        ) == Seq::<(Seq<char>, JsonSpec)>::empty(),
{
    lemma_cell_keys();
    let kc = "cell_type"@;
    let ki = "id"@;
    let km = "metadata"@;
    let ks = "source"@;
    let ke = "execution_count"@;
    let ko = "outputs"@;
    let m1 = obj_remove(m0, kc);
    let m2 = obj_remove(m1, ki);
    let m3 = obj_remove(m2, km);
    let m4 = obj_remove(m3, ks);
    let m5 = obj_remove(m4, ke);
    let m6 = obj_remove(m5, ko);
    if m6.len() > 0 {
        let x = m6[0].0;
        lemma_remove_keys_subset(m5, ko);
        assert(in_keys(m5, x));
        let i5 = choose|i: int| 0 <= i < m5.len() && m5[i].0 == x;
        lemma_remove_keys_subset(m4, ke);
        assert(in_keys(m4, x));
        let i4 = choose|i: int| 0 <= i < m4.len() && m4[i].0 == x;
        lemma_remove_keys_subset(m3, ks);
        assert(in_keys(m3, x));
        let i3 = choose|i: int| 0 <= i < m3.len() && m3[i].0 == x;
        lemma_remove_keys_subset(m2, km);
        assert(in_keys(m2, x));
        let i2 = choose|i: int| 0 <= i < m2.len() && m2[i].0 == x;
        lemma_remove_keys_subset(m1, ki);
        assert(in_keys(m1, x));
        let i1 = choose|i: int| 0 <= i < m1.len() && m1[i].0 == x;
        lemma_remove_keys_subset(m0, kc);
        assert(in_keys(m0, x));
        let i0 = choose|i: int| 0 <= i < m0.len() && m0[i].0 == x;
        assert(x == kc || x == ki || x == km || x == ks || x == ke || x == ko);
        lemma_remove_gone(m0, kc);
        lemma_remove_preserves_get(m1, ki, kc);
        lemma_remove_preserves_get(m2, km, kc);
        lemma_remove_preserves_get(m3, ks, kc);
        lemma_remove_preserves_get(m4, ke, kc);
        lemma_remove_preserves_get(m5, ko, kc);
        lemma_remove_gone(m1, ki);
        lemma_remove_preserves_get(m2, km, ki);
        lemma_remove_preserves_get(m3, ks, ki);
        lemma_remove_preserves_get(m4, ke, ki);
        lemma_remove_preserves_get(m5, ko, ki);
        lemma_remove_gone(m2, km);
        lemma_remove_preserves_get(m3, ks, km);
        lemma_remove_preserves_get(m4, ke, km);
        lemma_remove_preserves_get(m5, ko, km);
        lemma_remove_gone(m3, ks);
        lemma_remove_preserves_get(m4, ke, ks);
        lemma_remove_preserves_get(m5, ko, ks);
        lemma_remove_gone(m4, ke);
        lemma_remove_preserves_get(m5, ko, ke);
        lemma_remove_gone(m5, ko);
        assert(obj_get(m6, x) is Some);
        assert(false);
    }
    assert(m6 =~= Seq::<(Seq<char>, JsonSpec)>::empty());
}

fn decode_raw_cell(o: &Vec<JsonField>) -> (r: Result<RawCell, Error>)
    requires
        req_str_of(obj_model(o@), "cell_type"@) == "raw"@,
        req_str_ok(obj_model(o@), "cell_type"@),
    ensures
        r is Ok <==> text_cell_fields_ok(obj_model(o@), "raw"@),
        r matches Ok(c) ==> raw_cell_matches(c, obj_model(o@)),
        r matches Ok(c) ==> (wf_json(JsonSpec::Obj(obj_model(o@))) && text_cell_keys_only(
            obj_model(o@),
        ) && !field_null(obj_model(o@), "id"@) && !field_null(obj_model(o@), "attachments"@)
            ==> JsonSpec::Obj(c.enc_obj()) == JsonSpec::Obj(obj_model(o@))),
{
    let id = take_opt_str(o, "id")?;
    let metadata = match obj_find(o, "metadata") {
        Some(vv) => decode_cell_metadata(vv)?,
        Option::None => {
            return Err(Error::Format("metadata".to_owned()));
        },
    };
    let source = match obj_find(o, "source") {
        Some(vv) => decode_multiline(vv)?,
        Option::None => {
            return Err(Error::Format("source".to_owned()));
        },
    };
    let attachments = match obj_find(o, "attachments") {
        Option::None => None,
        Some(JsonValue::Null) => None,
        Some(vv) => Some(decode_attachments(vv)?),
    };
    let c = RawCell { id, metadata, source, attachments };
    proof {
        let m0 = obj_model(o@);
        if wf_json(JsonSpec::Obj(m0)) && text_cell_keys_only(m0) && !field_null(m0, "id"@)
            && !field_null(m0, "attachments"@) {
            lemma_cell_keys();
            lemma_text_cell_rest_empty(m0);
            let kc = "cell_type"@;
            let ki = "id"@;
            let km = "metadata"@;
            let ks = "source"@;
            let ka = "attachments"@;
            let m1 = obj_remove(m0, kc);
            let m2 = obj_remove(m1, ki);
            let m3 = obj_remove(m2, km);
            let m4 = obj_remove(m3, ks);
            lemma_remove_preserves_get(m0, kc, ki);
            lemma_remove_preserves_get(m0, kc, km);
            lemma_remove_preserves_get(m0, kc, ks);
            lemma_remove_preserves_get(m0, kc, ka);
            lemma_remove_preserves_get(m1, ki, km);
            lemma_remove_preserves_get(m1, ki, ks);
            lemma_remove_preserves_get(m1, ki, ka);
            lemma_remove_preserves_get(m2, km, ks);
            lemma_remove_preserves_get(m2, km, ka);
            lemma_remove_preserves_get(m3, ks, ka);
            lemma_remove_sorted(m0, kc);
            lemma_remove_sorted(m1, ki);
            lemma_remove_sorted(m2, km);
            lemma_remove_sorted(m3, ks);
            let at = c.attachments;
            match at {
                Some(a) => lemma_field_round(m4, ka, JsonSpec::Obj(att_enc(a@))),
                None => lemma_field_absent(m4, ka),
            }
            lemma_field_round(m3, ks, c.source.enc());
            lemma_field_round(m2, km, c.metadata.enc());
            let idv = c.id;
            match idv {
                Some(sv) => lemma_field_round(m1, ki, JsonSpec::Str(sv@)),
                None => lemma_field_absent(m1, ki),
            }
            lemma_field_round(m0, kc, JsonSpec::Str("raw"@));
        }
    }
    Ok(c)
}

fn decode_markdown_cell(o: &Vec<JsonField>) -> (r: Result<MarkdownCell, Error>)
    requires
        req_str_of(obj_model(o@), "cell_type"@) == "markdown"@,
        req_str_ok(obj_model(o@), "cell_type"@),
    ensures
        r is Ok <==> text_cell_fields_ok(obj_model(o@), "markdown"@),
        r matches Ok(c) ==> markdown_cell_matches(c, obj_model(o@)),
        r matches Ok(c) ==> (wf_json(JsonSpec::Obj(obj_model(o@))) && text_cell_keys_only(
            obj_model(o@),
        ) && !field_null(obj_model(o@), "id"@) && !field_null(obj_model(o@), "attachments"@)
            ==> JsonSpec::Obj(c.enc_obj()) == JsonSpec::Obj(obj_model(o@))),
{
    let id = take_opt_str(o, "id")?;
    let metadata = match obj_find(o, "metadata") {
        Some(vv) => decode_cell_metadata(vv)?,
        Option::None => {
            return Err(Error::Format("metadata".to_owned()));
        },
    };
    let source = match obj_find(o, "source") {
        Some(vv) => decode_multiline(vv)?,
        Option::None => {
            return Err(Error::Format("source".to_owned()));
        },
    };
    let attachments = match obj_find(o, "attachments") {
        Option::None => None,
        Some(JsonValue::Null) => None,
        Some(vv) => Some(decode_attachments(vv)?),
    };
    let c = MarkdownCell { id, metadata, source, attachments };
    proof {
        let m0 = obj_model(o@);
        if wf_json(JsonSpec::Obj(m0)) && text_cell_keys_only(m0) && !field_null(m0, "id"@)
            && !field_null(m0, "attachments"@) {
            lemma_cell_keys();
            lemma_text_cell_rest_empty(m0);
            let kc = "cell_type"@;
            let ki = "id"@;
            let km = "metadata"@;
            let ks = "source"@;
            let ka = "attachments"@;
            let m1 = obj_remove(m0, kc);
            let m2 = obj_remove(m1, ki);
            let m3 = obj_remove(m2, km);
            let m4 = obj_remove(m3, ks);
            lemma_remove_preserves_get(m0, kc, ki);
            lemma_remove_preserves_get(m0, kc, km);
            lemma_remove_preserves_get(m0, kc, ks);
            lemma_remove_preserves_get(m0, kc, ka);
            lemma_remove_preserves_get(m1, ki, km);
            lemma_remove_preserves_get(m1, ki, ks);
            lemma_remove_preserves_get(m1, ki, ka);
            lemma_remove_preserves_get(m2, km, ks);
            lemma_remove_preserves_get(m2, km, ka);
            lemma_remove_preserves_get(m3, ks, ka);
            lemma_remove_sorted(m0, kc);
            lemma_remove_sorted(m1, ki);
            lemma_remove_sorted(m2, km);
            lemma_remove_sorted(m3, ks);
            let at = c.attachments;
            match at {
                Some(a) => lemma_field_round(m4, ka, JsonSpec::Obj(att_enc(a@))),
                None => lemma_field_absent(m4, ka),
            }
            lemma_field_round(m3, ks, c.source.enc());
            lemma_field_round(m2, km, c.metadata.enc());
            let idv = c.id;
            match idv {
                Some(sv) => lemma_field_round(m1, ki, JsonSpec::Str(sv@)),
                None => lemma_field_absent(m1, ki),
            }
            lemma_field_round(m0, kc, JsonSpec::Str("markdown"@));
        }
    }
    Ok(c)
}

#[verifier::loop_isolation(false)]
#[verifier::rlimit(30)]
fn decode_code_cell(o: &Vec<JsonField>) -> (r: Result<CodeCell, Error>)
    requires
        req_str_of(obj_model(o@), "cell_type"@) == "code"@,
        req_str_ok(obj_model(o@), "cell_type"@),
    ensures
        r is Ok <==> code_cell_fields_ok(obj_model(o@)),
        r matches Ok(c) ==> code_cell_matches(c, obj_model(o@)),
        r matches Ok(c) ==> (wf_json(JsonSpec::Obj(obj_model(o@))) && code_cell_keys_only(
            obj_model(o@),
        ) && !field_null(obj_model(o@), "id"@) && !field_null(obj_model(o@), "execution_count"@)
            && (obj_get(obj_model(o@), "outputs"@) matches Some(JsonSpec::Arr(a))
            && outputs_arr_exact(a)) ==> JsonSpec::Obj(c.enc_obj()) == JsonSpec::Obj(
            obj_model(o@),
        )),
{
    let ghost m0 = obj_model(o@);
    let id = take_opt_str(o, "id")?;
    let metadata = match obj_find(o, "metadata") {
        Some(vv) => decode_cell_metadata(vv)?,
        Option::None => {
            return Err(Error::Format("metadata".to_owned()));
        },
    };
    let source = match obj_find(o, "source") {
        Some(vv) => decode_multiline(vv)?,
        Option::None => {
            return Err(Error::Format("source".to_owned()));
        },
    };
    let execution_count = match take_opt_num(o, "execution_count", 0xffff_ffff)? {
        Some(n) => Some(n as u32),
        None => None,
    };
    let outputs: Vec<Output> = match obj_find(o, "outputs") {
        Some(JsonValue::Arr(a)) => {
            let ghost am = arr_model(a@);
            let mut out: Vec<Output> = Vec::new();
            let mut i: usize = 0;
            while i < a.len()
                invariant
                    0 <= i <= a@.len(),
                    out@.len() == i,
                    forall|j: int| 0 <= j < i ==> output_ok(#[trigger] am[j]),
                    forall|j: int| 0 <= j < i ==> output_matches(#[trigger] out@[j], am[j]),
                    forall|j: int| 0 <= j < i ==> (wf_json(#[trigger] am[j]) && output_exact(am[j])
                        ==> out@[j].enc() == am[j]),
                decreases a@.len() - i,
            {
                proof {
                    assert(am[i as int] == a@[i as int].model());
                }
                let el = match decode_output(&a[i]) {
                    Ok(x) => x,
                    Err(e) => {
                        proof {
                            let wi = i as int;
                            assert(!outputs_arr_ok(am)) by {
                                if outputs_arr_ok(am) {
                                    assert(output_ok(am[wi]));
                                    assert(false);
                                }
                            }
                        }
                        return Err(e);
                    },
                };
                out.push(el);
                i += 1;
            }
            out
        },
        Option::None => {
            return Err(Error::Format("outputs".to_owned()));
        },
        Some(_) => {
            return Err(Error::Format("outputs: expected array".to_owned()));
        },
    };
    let c = CodeCell { id, metadata, source, execution_count, outputs };
    proof {
        if wf_json(JsonSpec::Obj(m0)) && code_cell_keys_only(m0) && !field_null(m0, "id"@)
            && !field_null(m0, "execution_count"@) && (obj_get(m0, "outputs"@) matches Some(
            JsonSpec::Arr(aa),
        ) && outputs_arr_exact(aa)) {
            lemma_cell_keys();
            lemma_code_cell_rest_empty(m0);
            let kc = "cell_type"@;
            let ki = "id"@;
            let km = "metadata"@;
            let ks = "source"@;
            let ke = "execution_count"@;
            let ko = "outputs"@;
            let m1 = obj_remove(m0, kc);
            let m2 = obj_remove(m1, ki);
            let m3 = obj_remove(m2, km);
            let m4 = obj_remove(m3, ks);
            let m5 = obj_remove(m4, ke);
            lemma_remove_preserves_get(m0, kc, ki);
            lemma_remove_preserves_get(m0, kc, km);
            lemma_remove_preserves_get(m0, kc, ks);
            lemma_remove_preserves_get(m0, kc, ke);
            lemma_remove_preserves_get(m0, kc, ko);
            lemma_remove_preserves_get(m1, ki, km);
            lemma_remove_preserves_get(m1, ki, ks);
            lemma_remove_preserves_get(m1, ki, ke);
            lemma_remove_preserves_get(m1, ki, ko);
            lemma_remove_preserves_get(m2, km, ks);
            lemma_remove_preserves_get(m2, km, ke);
            lemma_remove_preserves_get(m2, km, ko);
            lemma_remove_preserves_get(m3, ks, ke);
            lemma_remove_preserves_get(m3, ks, ko);
            lemma_remove_preserves_get(m4, ke, ko);
            lemma_remove_sorted(m0, kc);
            lemma_remove_sorted(m1, ki);
            lemma_remove_sorted(m2, km);
            lemma_remove_sorted(m3, ks);
            lemma_remove_sorted(m4, ke);
            let elems = obj_get(m0, ko)->Some_0->Arr_0;
            lemma_wf_get(m0, ko);
            assert forall|j: int| 0 <= j < c.outputs@.len() implies outputs_enc(c.outputs@)[j]
                == elems[j] by {
                assert(wf_json(elems[j]));
                assert(output_exact(elems[j]));
            }
            assert(outputs_enc(c.outputs@) =~= elems);
            lemma_field_round(m5, ko, JsonSpec::Arr(outputs_enc(c.outputs@)));
            let ec = c.execution_count;
            match ec {
                Some(n) => {
                    let ns = obj_get(m4, ke)->Some_0->Num_0;
                    lemma_canon_unique(ns);
                    lemma_field_round(m4, ke, JsonSpec::Num(ns));
                },
                None => lemma_field_absent(m4, ke),
            }
            lemma_field_round(m3, ks, c.source.enc());
            lemma_field_round(m2, km, c.metadata.enc());
            let idv = c.id;
            match idv {
                Some(sv) => lemma_field_round(m1, ki, JsonSpec::Str(sv@)),
                None => lemma_field_absent(m1, ki),
            }
            lemma_field_round(m0, kc, JsonSpec::Str("code"@));
        }
    }
    Ok(c)
}

/// Decode one cell; an unknown or missing `cell_type` tag is an error,
/// never a fallback.
pub fn decode_cell(v: &JsonValue) -> (r: Result<Cell, Error>)
    ensures
        r is Ok <==> cell_ok(v.model()),
        r matches Ok(c) ==> cell_matches(c, v.model()),
        r matches Ok(c) ==> (wf_json(v.model()) && cell_exact(v.model()) ==> c.enc() == v.model()),
{
    let o = match v {
        JsonValue::Obj(o) => o,
        _ => {
            return Err(Error::Format("cell: expected object".to_owned()));
        },
    };
    let tag = take_req_str(o, "cell_type")?;
    proof {
        reveal_strlit("raw");
        reveal_strlit("markdown");
        reveal_strlit("code");
        assert("raw"@.len() == 3);
        assert("markdown"@.len() == 8);
        assert("code"@.len() == 4);
    }
    if str_eq(tag.as_str(), "raw") {
        Ok(Cell::Raw(decode_raw_cell(o)?))
    } else if str_eq(tag.as_str(), "markdown") {
        Ok(Cell::Markdown(decode_markdown_cell(o)?))
    } else if str_eq(tag.as_str(), "code") {
        Ok(Cell::Code(decode_code_cell(o)?))
    } else {
        Err(Error::Format("cell_type: unrecognized tag".to_owned()))
    }
}

/// Encode one cell.
#[verifier::loop_isolation(false)]
pub fn encode_cell(c: &Cell) -> (r: JsonValue)
    ensures
        r.model() == c.enc(),
{
    let empty: Vec<JsonField> = Vec::new();
    proof {
        assert(obj_model(empty@) =~= Seq::<(Seq<char>, JsonSpec)>::empty());
    }
    match c {
        Cell::Raw(x) => {
            let o1 = match &x.attachments {
                Some(a) => obj_with(&empty, "attachments", encode_attachments(a)),
                None => empty,
            };
            let o2 = obj_with(&o1, "source", encode_multiline(&x.source));
            let o3 = obj_with(&o2, "metadata", encode_cell_metadata(&x.metadata));
            let o4 = put_opt_str(o3, "id", &x.id);
            let o5 = obj_with(&o4, "cell_type", JsonValue::Str("raw".to_owned()));
            JsonValue::Obj(o5)
        },
        Cell::Markdown(x) => {
            let o1 = match &x.attachments {
                Some(a) => obj_with(&empty, "attachments", encode_attachments(a)),
                None => empty,
            };
            let o2 = obj_with(&o1, "source", encode_multiline(&x.source));
            let o3 = obj_with(&o2, "metadata", encode_cell_metadata(&x.metadata));
            let o4 = put_opt_str(o3, "id", &x.id);
            let o5 = obj_with(&o4, "cell_type", JsonValue::Str("markdown".to_owned()));
            JsonValue::Obj(o5)
        },
        Cell::Code(x) => {
            let mut arr: Vec<JsonValue> = Vec::new();
            let mut i: usize = 0;
            while i < x.outputs.len()
                invariant
                    0 <= i <= x.outputs@.len(),
                    arr@.len() == i,
                    forall|j: int| 0 <= j < i ==> (#[trigger] arr@[j].model())
                        == x.outputs@[j].enc(),
                decreases x.outputs@.len() - i,
            {
                arr.push(encode_output(&x.outputs[i]));
                i += 1;
            }
            proof {
                assert forall|j: int| 0 <= j < x.outputs@.len() implies arr_model(arr@)[j]
                    == outputs_enc(x.outputs@)[j] by {
                    assert(arr_model(arr@)[j] == arr@[j].model());
                }
                assert(arr_model(arr@) =~= outputs_enc(x.outputs@));
            }
            let o1 = obj_with(&empty, "outputs", JsonValue::Arr(arr));
            let o2 = put_opt_num(o1, "execution_count", match x.execution_count {
                Some(n) => Some(n as u64),
                None => None,
            });
            let o3 = obj_with(&o2, "source", encode_multiline(&x.source));
            let o4 = obj_with(&o3, "metadata", encode_cell_metadata(&x.metadata));
            let o5 = put_opt_str(o4, "id", &x.id);
            let o6 = obj_with(&o5, "cell_type", JsonValue::Str("code".to_owned()));
            JsonValue::Obj(o6)
        },
    }
}

// ---------------------------------------------------------------------------
// The document root.
// ---------------------------------------------------------------------------

/// The whole notebook document.
#[derive(Debug, PartialEq, Eq)]
pub struct NotebookRoot {
    /// Root-level metadata of the notebook.
    pub metadata: NotebookMetadata,
    /// Notebook format minor number.
    pub nbformat_minor: u8,
    /// Notebook format major number.
    pub nbformat: u8,
    /// The cells of the notebook, in order.
    pub cells: Vec<Cell>,
}

/// Every element of a cell array conforms.
pub open spec fn cells_arr_ok(elems: Seq<JsonSpec>) -> bool {
    forall|i: int| 0 <= i < elems.len() ==> cell_ok(#[trigger] elems[i])
}

/// Every element of a cell array round-trips exactly.
pub open spec fn cells_arr_exact(elems: Seq<JsonSpec>) -> bool {
    forall|i: int| 0 <= i < elems.len() ==> cell_exact(#[trigger] elems[i])
}

/// The JSON values of a cell list.
pub open spec fn cells_enc(a: Seq<Cell>) -> Seq<JsonSpec> {
    Seq::new(a.len(), |i: int| a[i].enc())
}

/// The keys the document root recognizes.
pub open spec fn root_keys_only(o: Seq<(Seq<char>, JsonSpec)>) -> bool {
    forall|i: int|
        0 <= i < o.len() ==> ((#[trigger] o[i].0) == "metadata"@ || o[i].0 == "nbformat_minor"@
            || o[i].0 == "nbformat"@ || o[i].0 == "cells"@)
}

/// A JSON value in the shape of a whole document.
pub open spec fn notebook_ok(j: JsonSpec) -> bool {
    j matches JsonSpec::Obj(o) && (obj_get(o, "metadata"@) matches Some(mj)
        && notebook_metadata_ok(mj)) && req_num_ok(o, "nbformat_minor"@, 255) && req_num_ok(
        o,
        "nbformat"@,
        255,
    ) && (obj_get(o, "cells"@) matches Some(JsonSpec::Arr(a)) && cells_arr_ok(a))
}

/// A document that also round-trips exactly: no unrecognized root key, and
/// metadata and cells exact in turn.
pub open spec fn notebook_exact(j: JsonSpec) -> bool {
    notebook_ok(j) && {
        let o = j->Obj_0;
        root_keys_only(o) && notebook_metadata_exact(obj_get(o, "metadata"@)->Some_0) && (obj_get(
            o,
            "cells"@,
        ) matches Some(JsonSpec::Arr(a)) && cells_arr_exact(a))
    }
}

impl NotebookRoot {
    /// The JSON object this document encodes to: exactly its fields.
    pub open spec fn enc_obj(self) -> Seq<(Seq<char>, JsonSpec)> {
        let o0 = Seq::<(Seq<char>, JsonSpec)>::empty();
        let o1 = obj_insert(o0, "cells"@, JsonSpec::Arr(cells_enc(self.cells@)));
        let o2 = obj_insert(o1, "nbformat"@, JsonSpec::Num(dec_str(self.nbformat as nat)));
        let o3 = obj_insert(
            o2,
            "nbformat_minor"@,
            JsonSpec::Num(dec_str(self.nbformat_minor as nat)),
        );
        obj_insert(o3, "metadata"@, self.metadata.enc())
    }

    /// The JSON value this document encodes to.
    pub open spec fn enc(self) -> JsonSpec {
        JsonSpec::Obj(self.enc_obj())
    }
}

/// The decoded document corresponds to the JSON: metadata corresponds in
/// turn, the format numbers project the source numerals, and the cell
/// list keeps the source array's order and length, the i-th cell decoded
/// from the i-th element.
pub open spec fn notebook_matches(nb: NotebookRoot, j: JsonSpec) -> bool {
    j matches JsonSpec::Obj(m) && (obj_get(m, "metadata"@) matches Some(mj)
        && notebook_metadata_matches(nb.metadata, mj)) && nb.nbformat_minor as int == req_num_of(
        m,
        "nbformat_minor"@,
    ) && nb.nbformat as int == req_num_of(m, "nbformat"@) && (obj_get(m, "cells"@) matches Some(
        JsonSpec::Arr(elems),
    ) && nb.cells@.len() == elems.len() && forall|i: int|
        0 <= i < elems.len() ==> cell_matches(#[trigger] nb.cells@[i], elems[i]))
}

/// The keys the root recognizes are pairwise distinct.
proof fn lemma_root_keys()
    ensures
        "metadata"@ != "nbformat_minor"@,
        "metadata"@ != "nbformat"@,
        "metadata"@ != "cells"@,
        "nbformat_minor"@ != "nbformat"@,
        "nbformat_minor"@ != "cells"@,
        "nbformat"@ != "cells"@,
{
    reveal_strlit("metadata");
    reveal_strlit("nbformat_minor");
    reveal_strlit("nbformat");
    reveal_strlit("cells");
    assert("metadata"@.len() == 8);
    assert("nbformat_minor"@.len() == 14);
    assert("nbformat"@.len() == 8);
    assert("cells"@.len() == 5);
    assert("metadata"@[0] == 'm');
    assert("nbformat"@[0] == 'n');
}

/// After removing every key the root recognizes, nothing remains.
proof fn lemma_root_rest_empty(m0: Seq<(Seq<char>, JsonSpec)>)
    requires
        root_keys_only(m0),
    ensures
        obj_remove(
            obj_remove(obj_remove(obj_remove(m0, "metadata"@), "nbformat_minor"@), "nbformat"@),
            "cells"@,
        ) == Seq::<(Seq<char>, JsonSpec)>::empty(),
{
    lemma_root_keys();
    let km = "metadata"@;
    let kn = "nbformat_minor"@;
    let kf = "nbformat"@;
    let kc = "cells"@;
    let m1 = obj_remove(m0, km);
    let m2 = obj_remove(m1, kn);
    let m3 = obj_remove(m2, kf);
    let m4 = obj_remove(m3, kc);
    if m4.len() > 0 {
        let x = m4[0].0;
        lemma_remove_keys_subset(m3, kc);
        assert(in_keys(m3, x));
        let i3 = choose|i: int| 0 <= i < m3.len() && m3[i].0 == x;
        lemma_remove_keys_subset(m2, kf);
        assert(in_keys(m2, x));
        let i2 = choose|i: int| 0 <= i < m2.len() && m2[i].0 == x;
        lemma_remove_keys_subset(m1, kn);
        assert(in_keys(m1, x));
        let i1 = choose|i: int| 0 <= i < m1.len() && m1[i].0 == x;
        lemma_remove_keys_subset(m0, km);
        assert(in_keys(m0, x));
        let i0 = choose|i: int| 0 <= i < m0.len() && m0[i].0 == x;
        assert(x == km || x == kn || x == kf || x == kc);
        lemma_remove_gone(m0, km);
        lemma_remove_preserves_get(m1, kn, km);
        lemma_remove_preserves_get(m2, kf, km);
        lemma_remove_preserves_get(m3, kc, km);
        lemma_remove_gone(m1, kn);
        lemma_remove_preserves_get(m2, kf, kn);
        lemma_remove_preserves_get(m3, kc, kn);
        lemma_remove_gone(m2, kf);
        lemma_remove_preserves_get(m3, kc, kf);
        lemma_remove_gone(m3, kc);
        assert(obj_get(m4, x) is Some);
        assert(false);
    }
    assert(m4 =~= Seq::<(Seq<char>, JsonSpec)>::empty());
}

/// Decode a whole document from its JSON tree. Success exactly on
/// conforming trees; on every well-formed, exactly-shaped tree the decoded
/// document re-encodes to the very same tree.
#[verifier::loop_isolation(false)]
#[verifier::rlimit(30)]
pub fn decode_notebook_value(v: &JsonValue) -> (r: Result<NotebookRoot, Error>)
    ensures
        r is Ok <==> notebook_ok(v.model()),
        r matches Ok(nb) ==> notebook_matches(nb, v.model()),
        r matches Ok(nb) ==> (wf_json(v.model()) && notebook_exact(v.model()) ==> nb.enc()
            == v.model()),
{
    let o = match v {
        JsonValue::Obj(o) => o,
        _ => {
            return Err(Error::Format("notebook: expected object".to_owned()));
        },
    };
    let ghost m0 = obj_model(o@);
    let metadata = match obj_find(o, "metadata") {
        Some(vv) => decode_notebook_metadata(vv)?,
        Option::None => {
            return Err(Error::Format("metadata".to_owned()));
        },
    };
    let nbformat_minor = take_req_num(o, "nbformat_minor", 255)? as u8;
    let nbformat = take_req_num(o, "nbformat", 255)? as u8;
    let cells: Vec<Cell> = match obj_find(o, "cells") {
        Some(JsonValue::Arr(a)) => {
            let ghost am = arr_model(a@);
            let mut out: Vec<Cell> = Vec::new();
            let mut i: usize = 0;
            while i < a.len()
                invariant
                    0 <= i <= a@.len(),
                    out@.len() == i,
                    forall|j: int| 0 <= j < i ==> cell_ok(#[trigger] am[j]),
                    forall|j: int| 0 <= j < i ==> cell_matches(#[trigger] out@[j], am[j]),
                    forall|j: int| 0 <= j < i ==> (wf_json(#[trigger] am[j]) && cell_exact(am[j])
                        ==> out@[j].enc() == am[j]),
                decreases a@.len() - i,
            {
                proof {
                    assert(am[i as int] == a@[i as int].model());
                }
                let el = match decode_cell(&a[i]) {
                    Ok(x) => x,
                    Err(e) => {
                        proof {
                            let wi = i as int;
                            assert(!cells_arr_ok(am)) by {
                                if cells_arr_ok(am) {
                                    assert(cell_ok(am[wi]));
                                    assert(false);
                                }
                            }
                        }
                        return Err(e);
                    },
                };
                out.push(el);
                i += 1;
            }
            out
        },
        Option::None => {
            return Err(Error::Format("cells".to_owned()));
        },
        Some(_) => {
            return Err(Error::Format("cells: expected array".to_owned()));
        },
    };
    let nb = NotebookRoot { metadata, nbformat_minor, nbformat, cells };
    proof {
        if wf_json(v.model()) && notebook_exact(v.model()) {
            lemma_root_keys();
            lemma_root_rest_empty(m0);
            let km = "metadata"@;
            let kn = "nbformat_minor"@;
            let kf = "nbformat"@;
            let kc = "cells"@;
            let m1 = obj_remove(m0, km);
            let m2 = obj_remove(m1, kn);
            let m3 = obj_remove(m2, kf);
            lemma_remove_preserves_get(m0, km, kn);
            lemma_remove_preserves_get(m0, km, kf);
            lemma_remove_preserves_get(m0, km, kc);
            lemma_remove_preserves_get(m1, kn, kf);
            lemma_remove_preserves_get(m1, kn, kc);
            lemma_remove_preserves_get(m2, kf, kc);
            lemma_remove_sorted(m0, km);
            lemma_remove_sorted(m1, kn);
            lemma_remove_sorted(m2, kf);
            let elems = obj_get(m0, kc)->Some_0->Arr_0;
            lemma_wf_get(m0, kc);
            assert forall|j: int| 0 <= j < nb.cells@.len() implies cells_enc(nb.cells@)[j]
                == elems[j] by {
                assert(wf_json(elems[j]));
                assert(cell_exact(elems[j]));
            }
            assert(cells_enc(nb.cells@) =~= elems);
            lemma_field_round(m3, kc, JsonSpec::Arr(cells_enc(nb.cells@)));
            let fs = obj_get(m2, kf)->Some_0->Num_0;
            lemma_canon_unique(fs);
            lemma_field_round(m2, kf, JsonSpec::Num(fs));
            let ns = obj_get(m1, kn)->Some_0->Num_0;
            lemma_canon_unique(ns);
            lemma_field_round(m1, kn, JsonSpec::Num(ns));
            lemma_wf_get(m0, km);
            lemma_field_round(m0, km, nb.metadata.enc());
        }
    }
    Ok(nb)
}

/// Encode a whole document into its JSON tree: exactly what
/// `decode_notebook_value` accepts back.
#[verifier::loop_isolation(false)]
pub fn encode_notebook_value(nb: &NotebookRoot) -> (r: JsonValue)
    ensures
        r.model() == nb.enc(),
{
    let empty: Vec<JsonField> = Vec::new();
    proof {
        assert(obj_model(empty@) =~= Seq::<(Seq<char>, JsonSpec)>::empty());
    }
    let mut arr: Vec<JsonValue> = Vec::new();
    let mut i: usize = 0;
    while i < nb.cells.len()
        invariant
            0 <= i <= nb.cells@.len(),
            arr@.len() == i,
            forall|j: int| 0 <= j < i ==> (#[trigger] arr@[j].model()) == nb.cells@[j].enc(),
        decreases nb.cells@.len() - i,
    {
        arr.push(encode_cell(&nb.cells[i]));
        i += 1;
    }
    proof {
        assert forall|j: int| 0 <= j < nb.cells@.len() implies arr_model(arr@)[j] == cells_enc(
            nb.cells@,
        )[j] by {
            assert(arr_model(arr@)[j] == arr@[j].model());
        }
        assert(arr_model(arr@) =~= cells_enc(nb.cells@));
    }
    let o1 = obj_with(&empty, "cells", JsonValue::Arr(arr));
    let o2 = obj_with(&o1, "nbformat", JsonValue::Num(print_dec_u64(nb.nbformat as u64)));
    let o3 = obj_with(
        &o2,
        "nbformat_minor",
        JsonValue::Num(print_dec_u64(nb.nbformat_minor as u64)),
    );
    let o4 = obj_with(&o3, "metadata", encode_notebook_metadata(&nb.metadata));
    JsonValue::Obj(o4)
}

/// Decode a notebook document from JSON text. Succeeds exactly on
/// well-formed JSON in the conforming document shape, naming the violated
/// field or tag otherwise; the decoded document re-encodes to the very
/// tree the text parsed to, whenever that tree is exact.
pub fn decode_notebook(text: &str) -> (r: Result<NotebookRoot, Error>)
    ensures
        r is Ok <==> (parsed_json(text@) matches Some(j) && notebook_ok(j)),
        r matches Ok(nb) ==> notebook_matches(nb, parsed_json(text@)->Some_0),
        r matches Ok(nb) ==> (notebook_exact(parsed_json(text@)->Some_0) ==> nb.enc()
            == parsed_json(text@)->Some_0),
        r matches Err(e) ==> e is Format,
{
    match parse_json_text(text) {
        Some(v) => match decode_notebook_value(&v) {
            Ok(nb) => Ok(nb),
            Err(e) => match e {
                Error::Format(m) => Err(Error::Format(m)),
                _ => Err(Error::Format("notebook".to_owned())),
            },
        },
        Option::None => Err(Error::Format("malformed JSON".to_owned())),
    }
}

/// Encode a notebook document as JSON text: the print of exactly the tree
/// the document encodes to.
pub fn encode_notebook(nb: &NotebookRoot) -> (r: String)
    ensures
        r@ == printed_json(nb.enc()),
{
    let v = encode_notebook_value(nb);
    render_json_text(&v)
}

} // verus!
