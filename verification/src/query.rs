//! Building URL query strings.

use vstd::prelude::*;
use vstd::utf8::encode_utf8;
use crate::filters::{decimal, push_decimal};
use crate::text::push_char;

verus! {

/// Bytes left as they are by percent-encoding.
pub open spec fn unreserved(b: u8) -> bool {
    (48 <= b <= 57) || (65 <= b <= 90) || (97 <= b <= 122) || b == 45 || b == 46 || b == 95 || b == 126
}

pub open spec fn hex_digit(d: u8) -> char {
    if d < 10 {
        (48 + d) as char
    } else {
        (55 + d) as char
    }
}

/// Percent-encoding of UTF-8 bytes: unreserved bytes stay, every other
/// byte becomes `%` and two upper-case hex digits.
pub open spec fn percent_encoded(bytes: Seq<u8>) -> Seq<char>
    decreases bytes.len(),
{
    if bytes.len() == 0 {
        seq![]
    } else {
        let b = bytes.last();
        percent_encoded(bytes.drop_last()) + if unreserved(b) {
            seq![b as char]
        } else {
            seq!['%', hex_digit(b / 16), hex_digit(b % 16)]
        }
    }
}

/// `urlencoding::encode`: percent-encodes every byte of the UTF-8 text
/// except ASCII letters, digits and `-`, `.`, `_`, `~`, with upper-case hex
/// digits, as its source shows.
#[verifier::external_body]
pub(crate) fn url_encode(s: &str) -> (res: String)
    ensures
        res@ == percent_encoded(encode_utf8(s@)),
{
    urlencoding::encode(s).into_owned()
}

/// The parts joined with `&` between them.
pub open spec fn joined(parts: Seq<Seq<char>>) -> Seq<char>
    decreases parts.len(),
{
    if parts.len() == 0 {
        seq![]
    } else if parts.len() == 1 {
        parts[0]
    } else {
        joined(parts.drop_last()) + "&"@ + parts.last()
    }
}

pub open spec fn views(v: Seq<String>) -> Seq<Seq<char>> {
    v.map_values(|s: String| s@)
}

/// Joins the parts with `&`, as `[String]::join("&")` does.
pub fn join_amp(parts: &Vec<String>) -> (res: String)
    ensures
        res@ == joined(views(parts@)),
{
    let mut out = String::new();
    let mut i: usize = 0;
    while i < parts.len()
        invariant
            i <= parts@.len(),
            out@ == joined(views(parts@.take(i as int))),
        decreases parts@.len() - i,
    {
        assert(views(parts@.take(i + 1)).drop_last() =~= views(parts@.take(i as int)));
        assert(views(parts@.take(i + 1)).last() == parts@[i as int]@);
        if i > 0 {
            out.append("&");
        } else {
            assert(views(parts@.take(1)).len() == 1);
        }
        out.append(parts[i].as_str());
        i += 1;
    }
    assert(parts@.take(parts@.len() as int) =~= parts@);
    out
}

/// An integer as `Display` writes it.
pub open spec fn int_text(y: int) -> Seq<char> {
    if y < 0 {
        "-"@ + decimal((-y) as nat)
    } else {
        decimal(y as nat)
    }
}

pub fn push_i64(out: &mut String, v: i64)
    ensures
        final(out)@ == old(out)@ + int_text(v as int),
{
    if v < 0 {
        push_char(out, '-');
        let m: u64 = (-(v as i128)) as u64;
        push_decimal(out, m);
        proof {
            reveal_strlit("-");
        }
        assert(final(out)@ =~= old(out)@ + int_text(v as int));
    } else {
        push_decimal(out, v as u64);
    }
}

/// `key=` followed by the text.
pub fn keyed(key: &str, value: &str) -> (res: String)
    ensures
        res@ == key@ + "="@ + value@,
{
    let mut s = key.to_owned();
    s.append("=");
    s.append(value);
    s
}

/// `key=` followed by the integer.
pub fn keyed_int(key: &str, value: i64) -> (res: String)
    ensures
        res@ == key@ + "="@ + int_text(value as int),
{
    let mut s = key.to_owned();
    s.append("=");
    push_i64(&mut s, value);
    s
}

pub open spec fn opt_text(o: Option<String>) -> Option<Seq<char>> {
    match o {
        Some(s) => Some(s@),
        None => None,
    }
}

/// `key=value` (value percent-encoded) when the value is present and not
/// empty.
pub open spec fn encoded_part(key: Seq<char>, v: Option<Seq<char>>) -> Seq<Seq<char>> {
    match v {
        Some(s) => if s.len() > 0 {
            seq![key + "="@ + percent_encoded(encode_utf8(s))]
        } else {
            seq![]
        },
        None => seq![],
    }
}

/// `key=value` when the value is present.
pub open spec fn int_part(key: Seq<char>, v: Option<i64>) -> Seq<Seq<char>> {
    match v {
        Some(i) => seq![key + "="@ + int_text(i as int)],
        None => seq![],
    }
}

/// `key=value` (value as it is) when the value is present.
pub open spec fn raw_part(key: Seq<char>, v: Option<Seq<char>>) -> Seq<Seq<char>> {
    match v {
        Some(s) => seq![key + "="@ + s],
        None => seq![],
    }
}

/// `key=value` (value as it is) when the value is present and not empty.
pub open spec fn raw_nonempty_part(key: Seq<char>, v: Option<Seq<char>>) -> Seq<Seq<char>> {
    match v {
        Some(s) => if s.len() > 0 {
            seq![key + "="@ + s]
        } else {
            seq![]
        },
        None => seq![],
    }
}

/// The filter part of a list page's query: search (encoded), category
/// and tag.
pub open spec fn filter_query(search: Option<Seq<char>>, category_id: Option<i64>, tag_id: Option<i64>) -> Seq<
    char,
> {
    joined(encoded_part("search"@, search) + int_part("category_id"@, category_id) + int_part("tag_id"@, tag_id))
}

/// The filter query followed by the sort column and direction.
pub open spec fn sorted_query(base: Seq<char>, sort: Option<Seq<char>>, dir: Option<Seq<char>>) -> Seq<char> {
    joined((if base.len() > 0 { seq![base] } else { seq![] }) + raw_part("sort"@, sort) + raw_part("dir"@, dir))
}

pub fn push_encoded_part(parts: &mut Vec<String>, key: &str, v: &Option<String>)
    ensures
        views(final(parts)@) == views(old(parts)@) + encoded_part(key@, opt_text(*v)),
{
    let ghost before = views(parts@);
    if let Some(s) = v {
        if s.as_str().unicode_len() > 0 {
            let mut t = key.to_owned();
            t.append("=");
            t.append(url_encode(s.as_str()).as_str());
            parts.push(t);
            assert(views(parts@) =~= before + encoded_part(key@, opt_text(*v)));
            return;
        }
    }
    assert(views(parts@) =~= before + encoded_part(key@, opt_text(*v)));
}

pub fn push_int_part(parts: &mut Vec<String>, key: &str, v: Option<i64>)
    ensures
        views(final(parts)@) == views(old(parts)@) + int_part(key@, v),
{
    let ghost before = views(parts@);
    if let Some(i) = v {
        parts.push(keyed_int(key, i));
    }
    assert(views(parts@) =~= before + int_part(key@, v));
}

pub fn push_raw_part(parts: &mut Vec<String>, key: &str, v: &Option<String>, skip_empty: bool)
    ensures
        views(final(parts)@) == views(old(parts)@) + if skip_empty {
            raw_nonempty_part(key@, opt_text(*v))
        } else {
            raw_part(key@, opt_text(*v))
        },
{
    let ghost before = views(parts@);
    if let Some(s) = v {
        if !skip_empty || s.as_str().unicode_len() > 0 {
            parts.push(keyed(key, s.as_str()));
        }
    }
    assert(views(parts@) =~= before + if skip_empty {
        raw_nonempty_part(key@, opt_text(*v))
    } else {
        raw_part(key@, opt_text(*v))
    });
}

pub fn filter_query_string(search: &Option<String>, category_id: Option<i64>, tag_id: Option<i64>) -> (res: String)
    ensures
        res@ == filter_query(opt_text(*search), category_id, tag_id),
{
    let mut parts: Vec<String> = Vec::new();
    assert(views(parts@) =~= Seq::<Seq<char>>::empty());
    push_encoded_part(&mut parts, "search", search);
    push_int_part(&mut parts, "category_id", category_id);
    push_int_part(&mut parts, "tag_id", tag_id);
    proof {
        reveal_strlit("search");
        reveal_strlit("category_id");
        reveal_strlit("tag_id");
    }
    assert(views(parts@) =~= encoded_part("search"@, opt_text(*search)) + int_part("category_id"@, category_id)
        + int_part("tag_id"@, tag_id));
    join_amp(&parts)
}

pub fn sorted_query_string(base: String, sort: &Option<String>, dir: &Option<String>) -> (res: String)
    ensures
        res@ == sorted_query(base@, opt_text(*sort), opt_text(*dir)),
{
    let mut parts: Vec<String> = Vec::new();
    let ghost b = base@;
    if base.as_str().unicode_len() > 0 {
        parts.push(base);
    }
    assert(views(parts@) =~= (if b.len() > 0 { seq![b] } else { Seq::<Seq<char>>::empty() }));
    push_raw_part(&mut parts, "sort", sort, false);
    push_raw_part(&mut parts, "dir", dir, false);
    proof {
        reveal_strlit("sort");
        reveal_strlit("dir");
    }
    assert(views(parts@) =~= (if b.len() > 0 { seq![b] } else { Seq::<Seq<char>>::empty() }) + raw_part(
        "sort"@,
        opt_text(*sort),
    ) + raw_part("dir"@, opt_text(*dir)));
    join_amp(&parts)
}

} // verus!
