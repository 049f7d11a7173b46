//! The metadata records: the second generation's, with its JSON text, and
//! the third generation's extended record.

use vstd::prelude::*;

verus! {

/// The metadata record of a second-generation container.
#[derive(Debug)]
pub struct YeetMetadata {
    pub author: Option<String>,
    pub created: Option<String>,
    pub software: String,
}

/// `"author":"`.
pub open spec fn author_key() -> Seq<char> {
    seq!['"', 'a', 'u', 't', 'h', 'o', 'r', '"', ':', '"']
}

/// `"created":"`.
pub open spec fn created_key() -> Seq<char> {
    seq!['"', 'c', 'r', 'e', 'a', 't', 'e', 'd', '"', ':', '"']
}

/// `"software":"`.
pub open spec fn software_key() -> Seq<char> {
    seq!['"', 's', 'o', 'f', 't', 'w', 'a', 'r', 'e', '"', ':', '"']
}

/// `key` stands at `i` in `s`.
pub open spec fn key_at(s: Seq<char>, key: Seq<char>, i: int) -> bool {
    0 <= i && i + key.len() <= s.len() && s.subrange(i, i + key.len()) == key
}

/// `i` is the first place where `key` stands.
pub open spec fn first_key(s: Seq<char>, key: Seq<char>, i: int) -> bool {
    key_at(s, key, i) && forall|k: int| 0 <= k < i ==> !key_at(s, key, k)
}

/// `j` is the first quote at or after `from`.
pub open spec fn first_quote(s: Seq<char>, from: int, j: int) -> bool {
    from <= j < s.len() && s[j] == '"' && forall|k: int| from <= k < j ==> s[k] != '"'
}

/// The value of `key` in `s` stands in `s[i + key.len()..j]`.
pub open spec fn value_bounds(s: Seq<char>, key: Seq<char>, i: int, j: int) -> bool {
    first_key(s, key, i) && first_quote(s, i + key.len(), j)
}

/// The string value that `key` (a `"name":"` prefix) introduces in `s`: the
/// text between its first occurrence and the next quote, if both are there.
pub open spec fn field_value(s: Seq<char>, key: Seq<char>) -> Option<Seq<char>> {
    if exists|i: int, j: int| #[trigger] value_bounds(s, key, i, j) {
        let (i, j) = choose|i: int, j: int| #[trigger] value_bounds(s, key, i, j);
        Some(s.subrange(i + key.len(), j))
    } else {
        None
    }
}

/// The software name that `from_json` reads from `s`.
pub open spec fn software_field(s: Seq<char>) -> Seq<char> {
    match field_value(s, software_key()) {
        Some(v) => v,
        None => "YEET v2.0"@,
    }
}

pub open spec fn opt_view(o: Option<String>) -> Option<Seq<char>> {
    match o {
        Some(s) => Some(s@),
        None => None,
    }
}

/// The JSON text of a record: author and creation time when present, then
/// the producing software, each as a string field.
pub open spec fn json_of(author: Option<Seq<char>>, created: Option<Seq<char>>, software: Seq<char>) -> Seq<char> {
    "{"@ + match author {
        Some(a) => "\"author\":\""@ + a + "\","@,
        None => Seq::empty(),
    } + match created {
        Some(c) => "\"created\":\""@ + c + "\","@,
        None => Seq::empty(),
    } + "\"software\":\""@ + software + "\""@ + "}"@
}

/// Relies on `std::time::SystemTime::now` and its `Debug` text: the time the
/// record is made, as a string. Nothing is promised of its value.
#[verifier::external_body]
fn now_text() -> (r: String) {
    format!("{:?}", std::time::SystemTime::now())
}

fn author_key_exec() -> (r: Vec<char>)
    ensures
        r@ == author_key(),
{
    let v = vec!['"', 'a', 'u', 't', 'h', 'o', 'r', '"', ':', '"'];
    assert(v@ =~= author_key());
    v
}

fn created_key_exec() -> (r: Vec<char>)
    ensures
        r@ == created_key(),
{
    let v = vec!['"', 'c', 'r', 'e', 'a', 't', 'e', 'd', '"', ':', '"'];
    assert(v@ =~= created_key());
    v
}

fn software_key_exec() -> (r: Vec<char>)
    ensures
        r@ == software_key(),
{
    let v = vec!['"', 's', 'o', 'f', 't', 'w', 'a', 'r', 'e', '"', ':', '"'];
    assert(v@ =~= software_key());
    v
}

fn key_at_exec(s: &str, len: usize, key: &Vec<char>, i: usize) -> (r: bool)
    requires
        len == s@.len(),
        i + key@.len() <= len,
    ensures
        r == key_at(s@, key@, i as int),
{
    let klen = key.len();
    let mut k: usize = 0;
    while k < klen
        invariant
            len == s@.len(),
            klen == key@.len(),
            i + klen <= len,
            k <= klen,
            forall|m: int| 0 <= m < k ==> s@[i + m] == key@[m],
        decreases klen - k,
    {
        if s.get_char(i + k) != key[k] {
            assert(s@.subrange(i as int, i + klen)[k as int] != key@[k as int]);
            return false;
        }
        k = k + 1;
    }
    assert(s@.subrange(i as int, i + klen) =~= key@);
    true
}

/// The string value that `key` introduces in `json`.
fn find_field(json: &str, len: usize, key: &Vec<char>) -> (r: Option<String>)
    requires
        len == json@.len(),
        key@.len() > 0,
    ensures
        opt_view(r) == field_value(json@, key@),
{
    let klen = key.len();
    let mut i: usize = 0;
    let mut found = false;
    while !found && len >= klen && i <= len - klen
        invariant
            len == json@.len(),
            klen == key@.len(),
            klen > 0,
            i <= len,
            found ==> key_at(json@, key@, i as int),
            forall|k: int| 0 <= k < i ==> !key_at(json@, key@, k),
        decreases len - i + (if found { 0int } else { 1int }),
    {
        if key_at_exec(json, len, key, i) {
            found = true;
        } else {
            i = i + 1;
        }
    }
    if !found {
        proof {
            assert forall|a: int, b: int| !#[trigger] value_bounds(json@, key@, a, b) by {
                if first_key(json@, key@, a) && a >= i {
                    assert(a + klen > len);
                }
            }
        }
        return None;
    }
    let start = i + klen;
    let mut j: usize = start;
    while j < len && json.get_char(j) != '"'
        invariant
            len == json@.len(),
            start <= j <= len,
            forall|k: int| start <= k < j ==> json@[k] != '"',
        decreases len - j,
    {
        j = j + 1;
    }
    proof {
        assert(first_key(json@, key@, i as int));
    }
    if j == len {
        proof {
            assert forall|a: int, b: int| !#[trigger] value_bounds(json@, key@, a, b) by {
                if value_bounds(json@, key@, a, b) {
                    assert(a == i as int);
                }
            }
        }
        return None;
    }
    let value = json.substring_char(start, j);
    proof {
        assert(first_quote(json@, start as int, j as int));
        assert(value_bounds(json@, key@, i as int, j as int));
        let (a, b) = choose|a: int, b: int| #[trigger] value_bounds(json@, key@, a, b);
        assert(a == i as int);
        assert(b == j as int) by {
            if b < j as int {
                assert(json@[b] == '"');
            } else if b > j as int {
                assert(json@[j as int] == '"');
            }
        }
    }
    Some(String::from_str(value))
}

impl YeetMetadata {
    /// A record made now by this software, with no author.
    pub fn new() -> (r: Self)
        ensures
            r.author is None,
            r.created is Some,
            r.software@ == "YEET v2.0"@,
    {
        YeetMetadata { author: None, created: Some(now_text()), software: String::from_str("YEET v2.0") }
    }

    /// The record as JSON text.
    pub fn to_json(&self) -> (r: String)
        ensures
            r@ == json_of(opt_view(self.author), opt_view(self.created), self.software@),
    {
        let mut json = String::from_str("{");
        let ghost j0 = json@;
        match &self.author {
            Some(a) => {
                json.append("\"author\":\"");
                json.append(a.as_str());
                json.append("\",");
            },
            None => {},
        }
        let ghost j1 = json@;
        match &self.created {
            Some(c) => {
                json.append("\"created\":\"");
                json.append(c.as_str());
                json.append("\",");
            },
            None => {},
        }
        let ghost j2 = json@;
        json.append("\"software\":\"");
        json.append(self.software.as_str());
        json.append("\"");
        json.append("}");
        proof {
            let am = match opt_view(self.author) {
                Some(a) => "\"author\":\""@ + a + "\","@,
                None => Seq::<char>::empty(),
            };
            let cm = match opt_view(self.created) {
                Some(c) => "\"created\":\""@ + c + "\","@,
                None => Seq::<char>::empty(),
            };
            assert(j1 =~= "{"@ + am);
            assert(j2 =~= "{"@ + am + cm);
            assert(json@ =~= json_of(opt_view(self.author), opt_view(self.created), self.software@));
        }
        json
    }

    /// The record that JSON text holds: author, creation time and software,
    /// each the text after the first `"name":"` up to the next quote. A
    /// missing author or creation time stays absent; a missing software name
    /// is this library's.
    pub fn from_json(json: &str) -> (r: Self)
        ensures
            opt_view(r.author) == field_value(json@, author_key()),
            opt_view(r.created) == field_value(json@, created_key()),
            r.software@ == software_field(json@),
    {
        let len = json.unicode_len();
        let author = find_field(json, len, &author_key_exec());
        let created = find_field(json, len, &created_key_exec());
        let software = match find_field(json, len, &software_key_exec()) {
            Some(s) => s,
            None => String::from_str("YEET v2.0"),
        };
        YeetMetadata { author, created, software }
    }
}

/// Camera details of a third-generation record.
#[derive(Clone, Debug)]
pub struct CameraMetadata {
    pub make: Option<String>,
    pub model: Option<String>,
    pub iso: Option<u32>,
    pub exposure: Option<String>,
    pub aperture: Option<String>,
    pub focal_length: Option<String>,
}

/// The extended metadata record of a third-generation container.
#[derive(Clone, Debug)]
pub struct YeetMetadataV3 {
    pub author: Option<String>,
    pub created: Option<String>,
    pub software: String,
    pub color_profile: Option<String>,
    pub color_space: Option<String>,
    pub frame_count: u32,
    pub frame_delay: Option<u32>,
    pub loop_count: u32,
    pub bit_depth: u8,
    pub hdr: bool,
    pub camera: Option<CameraMetadata>,
    pub dpi: Option<(u32, u32)>,
    pub orientation: Option<String>,
}

/// Relies on `chrono::Utc::now` and `DateTime::to_rfc3339`: the current
/// time as RFC 3339 text. Nothing is promised of its value.
#[verifier::external_body]
fn utc_now_rfc3339() -> (r: String) {
    chrono::Utc::now().to_rfc3339()
}

impl Default for YeetMetadataV3 {
    /// A record made now: one 8-bit sRGB frame, looping forever, normal
    /// orientation, no author, camera or profile.
    fn default() -> (r: Self)
        ensures
            r.author is None,
            r.created is Some,
            r.software@ == "YEET v3.0-alpha"@,
            r.color_profile is None,
            opt_view(r.color_space) == Some("sRGB"@),
            r.frame_count == 1,
            r.frame_delay is None,
            r.loop_count == 0,
            r.bit_depth == 8,
            !r.hdr,
            r.camera is None,
            r.dpi is None,
            opt_view(r.orientation) == Some("normal"@),
    {
        YeetMetadataV3 {
            author: None,
            created: Some(utc_now_rfc3339()),
            software: String::from_str("YEET v3.0-alpha"),
            color_profile: None,
            color_space: Some(String::from_str("sRGB")),
            frame_count: 1,
            frame_delay: None,
            loop_count: 0,
            bit_depth: 8,
            hdr: false,
            camera: None,
            dpi: None,
            orientation: Some(String::from_str("normal")),
        }
    }
}

impl YeetMetadataV3 {
    /// The record written for a single image: the default record, marking
    /// the profile as embedded when there is one.
    pub fn for_still_image(has_profile: bool) -> (r: Self)
        ensures
            r.frame_count == 1,
            r.loop_count == 0,
            r.software@ == "YEET v3.0-alpha"@,
            r.created is Some,
            has_profile ==> opt_view(r.color_profile) == Some("embedded"@),
            !has_profile ==> r.color_profile is None,
    {
        let mut record = YeetMetadataV3::default();
        record.frame_count = 1;
        if has_profile {
            record.color_profile = Some(String::from_str("embedded"));
        }
        record
    }
}

} // verus!
