//! Session history bookkeeping: safe entry ids and file names, the summary
//! listed for each stored session, and the newest-first order of the list.

use vstd::prelude::*;
use crate::json::{Json, JsonV, lemma_lookup_index, lemma_members_view, members_view};
use crate::text::{chars_of, is_blank, is_white_space, blank, string_of_chars};

verus! {

/// Whether `c` may appear in a history id: an ASCII letter or digit, `-` or `_`.
pub open spec fn id_char(c: char) -> bool {
    ||| ('a' <= c && c <= 'z')
    ||| ('A' <= c && c <= 'Z')
    ||| ('0' <= c && c <= '9')
    ||| c == '-'
    ||| c == '_'
}

/// Whether `id` is a safe history id: non-empty and made of id characters only.
pub open spec fn valid_id(id: Seq<char>) -> bool {
    id.len() > 0 && forall|i: int| 0 <= i < id.len() ==> id_char(#[trigger] id[i])
}

/// The id itself when it is safe to use in a file name, else `None`.
pub fn sanitize_id(id: &str) -> (res: Option<String>)
    ensures
        match res {
            Some(s) => valid_id(id@) && s@ == id@,
            None => !valid_id(id@),
        },
{
    let cs = chars_of(id);
    if cs.len() == 0 {
        return None;
    }
    let mut i: usize = 0;
    while i < cs.len()
        invariant
            0 <= i <= cs.len(),
            cs@ == id@,
            forall|j: int| 0 <= j < i ==> id_char(#[trigger] cs@[j]),
        decreases cs.len() - i,
    {
        let c = cs[i];
        let ok = ('a' <= c && c <= 'z') || ('A' <= c && c <= 'Z') || ('0' <= c && c <= '9') || c == '-'
            || c == '_';
        if !ok {
            return None;
        }
        i = i + 1;
    }
    Some(id.to_owned())
}

/// A safe id holds no path separator and no dot, so a file name made from it
/// stays inside the history directory.
pub proof fn law_safe_id_stays_in_directory(id: Seq<char>)
    requires
        valid_id(id),
    ensures
        !id.contains('/'),
        !id.contains('\\'),
        !id.contains('.'),
{
}

/// An id is accepted exactly when it is non-empty and each of its characters
/// is an ASCII letter or digit, `-` or `_`: timestamp ids and generated ids
/// pass, while separators, dots and spaces are refused.
pub proof fn law_accepted_ids(id: Seq<char>)
    ensures
        valid_id(id) <==> id.len() > 0 && forall|i: int|
            0 <= i < id.len() ==> {
                let c = #[trigger] id[i];
                ('0' <= c <= '9') || ('a' <= c <= 'z') || ('A' <= c <= 'Z') || c == '-' || c == '_'
            },
        id.contains(' ') ==> !valid_id(id),
{
    if id.contains(' ') {
        let k = choose|k: int| 0 <= k < id.len() && id[k] == ' ';
        assert(!id_char(id[k]));
    }
}

/// The file name under which the entry with `id` is stored.
pub open spec fn file_name_for(id: Seq<char>) -> Seq<char> {
    id + ".json"@
}

/// Distinct ids are stored under distinct file names, each the id followed
/// by `.json`.
pub proof fn law_file_names_distinct(a: Seq<char>, b: Seq<char>)
    ensures
        file_name_for(a) == file_name_for(b) ==> a == b,
        file_name_for(a).take(a.len() as int) == a,
        file_name_for(a).skip(a.len() as int) == ".json"@,
{
    reveal_strlit(".json");
    let fa = file_name_for(a);
    let fb = file_name_for(b);
    assert(fa.take(a.len() as int) =~= a);
    assert(fa.skip(a.len() as int) =~= ".json"@);
    if fa == fb {
        assert(a.len() == b.len());
        assert(fb.take(b.len() as int) =~= b);
    }
}

/// The file name for a history id, or `None` for an unsafe id.
pub fn history_file_name(id: &str) -> (res: Option<String>)
    ensures
        match res {
            Some(name) => valid_id(id@) && name@ == file_name_for(id@),
            None => !valid_id(id@),
        },
{
    match sanitize_id(id) {
        Some(safe) => {
            let mut out = chars_of(safe.as_str());
            crate::text::push_str(&mut out, ".json");
            Some(string_of_chars(&out))
        },
        None => None,
    }
}

/// The message for an entry or request whose id is unsafe.
pub fn invalid_id_message() -> (res: &'static str)
    ensures
        res@ == "无效的历史 id"@,
{
    "无效的历史 id"
}

/// The id of an entry to store: its `id` member, when that is a string and a safe id.
pub open spec fn entry_id_spec(entry: JsonV) -> Option<Seq<char>> {
    match entry.get("id"@) {
        Some(JsonV::Str(id)) => if valid_id(id) {
            Some(id)
        } else {
            None
        },
        _ => None,
    }
}

/// The id under which an entry is stored, or `None` when it has no safe id.
pub fn entry_id(entry: &Json) -> (res: Option<String>)
    ensures
        match res {
            Some(id) => entry_id_spec(entry@) == Some(id@),
            None => entry_id_spec(entry@) is None,
        },
{
    match entry.get("id") {
        Some(Json::Str(id)) => sanitize_id(id.as_str()),
        _ => None,
    }
}


/// Member `key` of `v`, or `fallback` when it is missing.
pub open spec fn member_or(v: JsonV, key: Seq<char>, fallback: JsonV) -> JsonV {
    match v.get(key) {
        Some(x) => x,
        None => fallback,
    }
}

/// The first sixty characters of the entry's `fullText` (empty when it has none).
pub open spec fn preview_of(v: JsonV) -> Seq<char> {
    let full = crate::llm::str_member(v, "fullText"@);
    crate::lexicon::first_n(full, 60)
}

/// Whether the entry holds a report: a `report` string that is not blank.
pub open spec fn has_report(v: JsonV) -> bool {
    match v.get("report"@) {
        Some(JsonV::Str(r)) => !is_blank(r),
        _ => false,
    }
}

/// The summary listed for a stored entry: its id and creation time, its
/// duration and counts (0 where missing), a preview of its text and whether it
/// holds a report.
pub open spec fn summary_spec(v: JsonV) -> JsonV {
    let zero = JsonV::Number("0"@);
    JsonV::Object(
        seq![
            ("id"@, member_or(v, "id"@, JsonV::Null)),
            ("createdAt"@, member_or(v, "createdAt"@, JsonV::Null)),
            ("durationSec"@, member_or(v, "durationSec"@, zero)),
            ("totalWords"@, member_or(v, "totalWords"@, zero)),
            ("fillers"@, member_or(v, "fillers"@, zero)),
            ("hedges"@, member_or(v, "hedges"@, zero)),
            ("vagueWords"@, member_or(v, "vagueWords"@, zero)),
            ("preview"@, JsonV::Str(preview_of(v))),
            ("hasReport"@, JsonV::Bool(has_report(v))),
        ],
    )
}

/// Member `key` of `v`, copied, or `fallback`.
fn pick(v: &Json, key: &str, fallback: Json) -> (res: (String, Json))
    ensures
        res.0@ == key@,
        res.1@ == member_or(v@, key@, fallback@),
{
    match v.get(key) {
        Some(x) => (key.to_owned(), x.deep_clone()),
        None => (key.to_owned(), fallback),
    }
}

/// The summary listed for a stored entry.
pub fn summarize_entry(v: &Json) -> (res: Json)
    ensures
        res@ == summary_spec(v@),
{
    let full = crate::llm::s(v, "fullText");
    let fc = chars_of(full.as_str());
    let mut pv: Vec<char> = Vec::new();
    let mut i: usize = 0;
    while i < fc.len() && i < 60
        invariant
            0 <= i <= fc.len(),
            i <= 60,
            pv@ == fc@.take(i as int),
        decreases fc.len() - i,
    {
        pv.push(fc[i]);
        assert(pv@ =~= fc@.take(i + 1));
        i = i + 1;
    }
    assert(pv@ =~= crate::lexicon::first_n(fc@, 60));
    let report = match v.get("report") {
        Some(Json::Str(r)) => {
            let rc = chars_of(r.as_str());
            !blank(&rc)
        },
        _ => false,
    };
    let fields = vec![
        pick(v, "id", Json::Null),
        pick(v, "createdAt", Json::Null),
        pick(v, "durationSec", Json::Number("0".to_owned())),
        pick(v, "totalWords", Json::Number("0".to_owned())),
        pick(v, "fillers", Json::Number("0".to_owned())),
        pick(v, "hedges", Json::Number("0".to_owned())),
        pick(v, "vagueWords", Json::Number("0".to_owned())),
        ("preview".to_owned(), Json::Str(string_of_chars(&pv))),
        ("hasReport".to_owned(), Json::Bool(report)),
    ];
    proof {
        lemma_members_view(fields@);
        assert(members_view(fields@) =~= summary_spec(v@)->Object_0);
    }
    Json::Object(fields)
}


/// Each member that the summary copies from an entry (`id`, `createdAt`, and
/// the counts `durationSec`, `totalWords`, `fillers`, `hedges`, `vagueWords`)
/// is the entry's member of the same name; where the entry lacks it, the id
/// and creation time read as null and a count as 0.
pub proof fn law_summary_copies_entry_members(entry: JsonV, key: Seq<char>)
    requires
        key == "id"@ || key == "createdAt"@ || key == "durationSec"@ || key == "totalWords"@
            || key == "fillers"@ || key == "hedges"@ || key == "vagueWords"@,
    ensures
        entry.get(key) is Some ==> summary_spec(entry).get(key) == entry.get(key),
        entry.get(key) is None ==> summary_spec(entry).get(key) == Some(
            if key == "id"@ || key == "createdAt"@ {
                JsonV::Null
            } else {
                JsonV::Number("0"@)
            },
        ),
{
    reveal_strlit("id");
    reveal_strlit("createdAt");
    reveal_strlit("durationSec");
    reveal_strlit("totalWords");
    reveal_strlit("fillers");
    reveal_strlit("hedges");
    reveal_strlit("vagueWords");
    assert("totalWords"@[0] != "vagueWords"@[0]);
    let f = summary_spec(entry)->Object_0;
    let i: int = if key == "id"@ {
        0
    } else if key == "createdAt"@ {
        1
    } else if key == "durationSec"@ {
        2
    } else if key == "totalWords"@ {
        3
    } else if key == "fillers"@ {
        4
    } else if key == "hedges"@ {
        5
    } else {
        6
    };
    assert(f[i].0 == key);
    assert forall|j: int| 0 <= j < i implies #[trigger] f[j].0 != key by {
        assert(f[j].0.len() != key.len() || f[j].0[0] != key[0]);
    }
    lemma_lookup_index(f, key, i);
}


/// The summary's preview is the first sixty characters of the entry's
/// `fullText` string (all of it when shorter, empty when there is none), and
/// it reports a report exactly when the entry's `report` is a string that is
/// not blank.
pub proof fn law_summary_preview_and_report(entry: JsonV)
    ensures
        summary_spec(entry).get("preview"@) == Some(
            JsonV::Str(
                match entry.get("fullText"@) {
                    Some(JsonV::Str(t)) => if t.len() <= 60 {
                        t
                    } else {
                        t.take(60)
                    },
                    _ => Seq::empty(),
                },
            ),
        ),
        summary_spec(entry).get("hasReport"@) == Some(
            JsonV::Bool(
                match entry.get("report"@) {
                    Some(JsonV::Str(r)) => exists|i: int| 0 <= i < r.len() && !is_white_space(#[trigger] r[i]),
                    _ => false,
                },
            ),
        ),
{
    reveal_strlit("id");
    reveal_strlit("createdAt");
    reveal_strlit("durationSec");
    reveal_strlit("totalWords");
    reveal_strlit("fillers");
    reveal_strlit("hedges");
    reveal_strlit("vagueWords");
    reveal_strlit("preview");
    reveal_strlit("hasReport");
    let f = summary_spec(entry)->Object_0;
    assert forall|j: int| 0 <= j < 7 implies #[trigger] f[j].0 != "preview"@ by {
        assert(f[j].0.len() != 7 || f[j].0[0] != 'p');
    }
    lemma_lookup_index(f, "preview"@, 7);
    assert forall|j: int| 0 <= j < 8 implies #[trigger] f[j].0 != "hasReport"@ by {
        assert(f[j].0.len() != 9 || f[j].0[0] != 'h');
    }
    lemma_lookup_index(f, "hasReport"@, 8);
}


/// Whether text `a` sorts before text `b`: at the first differing position
/// `a` has the smaller character, or `a` is a proper prefix of `b` (the order
/// of std's `str` comparison, since UTF-8 preserves code-point order).
pub open spec fn text_less(a: Seq<char>, b: Seq<char>) -> bool
    decreases a.len(),
{
    if b.len() == 0 {
        false
    } else if a.len() == 0 {
        true
    } else if a[0] != b[0] {
        a[0] < b[0]
    } else {
        text_less(a.drop_first(), b.drop_first())
    }
}

proof fn lemma_text_less_irreflexive_asymmetric(a: Seq<char>, b: Seq<char>)
    ensures
        !text_less(a, a),
        text_less(a, b) ==> !text_less(b, a),
    decreases a.len(),
{
    if a.len() > 0 {
        lemma_text_less_irreflexive_asymmetric(a.drop_first(), a.drop_first());
        if b.len() > 0 {
            lemma_text_less_irreflexive_asymmetric(a.drop_first(), b.drop_first());
        }
    }
}

proof fn lemma_text_less_total(a: Seq<char>, b: Seq<char>)
    ensures
        a != b ==> text_less(a, b) || text_less(b, a),
    decreases a.len(),
{
    if a.len() == 0 && b.len() == 0 {
        assert(a =~= b);
    }
    if a.len() > 0 && b.len() > 0 && a != b && a[0] == b[0] {
        lemma_text_less_total(a.drop_first(), b.drop_first());
        assert(a.drop_first() != b.drop_first()) by {
            if a.drop_first() =~= b.drop_first() {
                assert(a =~= b) by {
                    assert forall|i: int| 0 <= i < a.len() implies a[i] == b[i] by {
                        if i > 0 {
                            assert(a[i] == a.drop_first()[i - 1]);
                            assert(b[i] == b.drop_first()[i - 1]);
                        }
                    }
                }
            }
        }
    }
}

proof fn lemma_text_less_transitive(a: Seq<char>, b: Seq<char>, c: Seq<char>)
    ensures
        text_less(a, b) && text_less(b, c) ==> text_less(a, c),
    decreases a.len(),
{
    if a.len() > 0 && b.len() > 0 && c.len() > 0 {
        lemma_text_less_transitive(a.drop_first(), b.drop_first(), c.drop_first());
    }
}

/// Text order is a strict total order.
pub proof fn law_text_order(a: Seq<char>, b: Seq<char>, c: Seq<char>)
    ensures
        !text_less(a, a),
        text_less(a, b) ==> !text_less(b, a),
        a != b ==> text_less(a, b) || text_less(b, a),
        text_less(a, b) && text_less(b, c) ==> text_less(a, c),
{
    lemma_text_less_irreflexive_asymmetric(a, b);
    lemma_text_less_total(a, b);
    lemma_text_less_transitive(a, b, c);
}

/// Whether `a` and `b` first differ at position `i`, where `a` has the
/// smaller character.
pub open spec fn first_difference_smaller(a: Seq<char>, b: Seq<char>, i: int) -> bool {
    &&& 0 <= i < a.len()
    &&& i < b.len()
    &&& a.take(i) == b.take(i)
    &&& a[i] < b[i]
}

/// Text order is lexicographic by character: `a` sorts before `b` exactly
/// when, at the first position where they differ, `a` has the smaller
/// character, or `a` is a proper prefix of `b`.
pub proof fn law_text_less_is_lexicographic(a: Seq<char>, b: Seq<char>)
    ensures
        text_less(a, b) <==> (exists|i: int| #[trigger] first_difference_smaller(a, b, i)) || (a.len()
            < b.len() && b.take(a.len() as int) == a),
    decreases a.len(),
{
    if b.len() == 0 {
    } else if a.len() == 0 {
        assert(b.take(0) =~= a);
    } else if a[0] != b[0] {
        if a[0] < b[0] {
            assert(a.take(0) =~= b.take(0));
            assert(first_difference_smaller(a, b, 0));
        } else {
            assert forall|i: int| !#[trigger] first_difference_smaller(a, b, i) by {
                if first_difference_smaller(a, b, i) && i > 0 {
                    assert(a.take(i)[0] == b.take(i)[0]);
                }
            }
            if a.len() < b.len() && b.take(a.len() as int) == a {
                assert(b.take(a.len() as int)[0] == a[0]);
            }
        }
    } else {
        let a1 = a.drop_first();
        let b1 = b.drop_first();
        law_text_less_is_lexicographic(a1, b1);
        if exists|i: int| #[trigger] first_difference_smaller(a1, b1, i) {
            let i = choose|i: int| #[trigger] first_difference_smaller(a1, b1, i);
            assert(a.take(i + 1) =~= seq![a[0]] + a1.take(i));
            assert(b.take(i + 1) =~= seq![b[0]] + b1.take(i));
            assert(first_difference_smaller(a, b, i + 1));
        }
        if exists|i: int| #[trigger] first_difference_smaller(a, b, i) {
            let i = choose|i: int| #[trigger] first_difference_smaller(a, b, i);
            assert(i > 0);
            assert(a1.take(i - 1) =~= a.take(i).drop_first());
            assert(b1.take(i - 1) =~= b.take(i).drop_first());
            assert(first_difference_smaller(a1, b1, i - 1));
        }
        if a1.len() < b1.len() && b1.take(a1.len() as int) == a1 {
            assert forall|k: int| 0 <= k < a.len() implies b.take(a.len() as int)[k] == a[k] by {
                if k > 0 {
                    assert(b1.take(a1.len() as int)[k - 1] == a1[k - 1]);
                }
            }
            assert(b.take(a.len() as int) =~= a);
        }
        if a.len() < b.len() && b.take(a.len() as int) == a {
            assert(b1.take(a1.len() as int) =~= a1);
        }
    }
}

/// Whether text `a` sorts before text `b`.
pub fn text_before(a: &Vec<char>, b: &Vec<char>) -> (res: bool)
    ensures
        res == text_less(a@, b@),
{
    let mut i: usize = 0;
    assert(a@.skip(0) =~= a@);
    assert(b@.skip(0) =~= b@);
    while i < a.len() && i < b.len() && a[i] == b[i]
        invariant
            0 <= i <= a.len(),
            i <= b.len(),
            text_less(a@, b@) == text_less(a@.skip(i as int), b@.skip(i as int)),
        decreases a.len() - i,
    {
        assert(a@.skip(i as int).drop_first() =~= a@.skip(i + 1));
        assert(b@.skip(i as int).drop_first() =~= b@.skip(i + 1));
        assert(a@.skip(i as int)[0] == a@[i as int]);
        i = i + 1;
    }
    if i == b.len() {
        false
    } else if i == a.len() {
        true
    } else {
        assert(a@.skip(i as int)[0] == a@[i as int]);
        assert(b@.skip(i as int)[0] == b@[i as int]);
        a[i] < b[i]
    }
}

/// The text that orders a listed summary: its `id` string, else empty.
pub open spec fn sort_key(v: JsonV) -> Seq<char> {
    match v.get("id"@) {
        Some(JsonV::Str(s)) => s,
        _ => Seq::empty(),
    }
}

/// Whether entry `i` is listed before entry `j`: its key sorts after (ids are
/// timestamps, so newest first), and equal keys keep their original order.
pub open spec fn goes_before(keys: Seq<Seq<char>>, i: int, j: int) -> bool {
    text_less(keys[j], keys[i]) || (keys[i] == keys[j] && i < j)
}

/// Whether `order` lists every index of `keys` once, newest first.
pub open spec fn is_newest_first_order(keys: Seq<Seq<char>>, order: Seq<int>) -> bool {
    &&& order.len() == keys.len()
    &&& forall|a: int| 0 <= a < order.len() ==> 0 <= #[trigger] order[a] < keys.len()
    &&& forall|a: int, b: int| 0 <= a < b < order.len() ==> #[trigger] order[a] != #[trigger] order[b]
    &&& forall|a: int, b: int|
        0 <= a < b < order.len() ==> goes_before(keys, #[trigger] order[a], #[trigger] order[b])
}

/// The positions of `keys`, listed newest first, equal keys in their original order.
pub fn newest_first_order(keys: &Vec<Vec<char>>) -> (res: Vec<usize>)
    ensures
        is_newest_first_order(
            keys@.map_values(|k: Vec<char>| k@),
            res@.map_values(|i: usize| i as int),
        ),
{
    let ghost kv = keys@.map_values(|k: Vec<char>| k@);
    let mut order: Vec<usize> = Vec::new();
    let mut i: usize = 0;
    while i < keys.len()
        invariant
            0 <= i <= keys.len(),
            kv == keys@.map_values(|k: Vec<char>| k@),
            order@.len() == i,
            forall|a: int| 0 <= a < order@.len() ==> #[trigger] order@[a] < i,
            forall|a: int, b: int| 0 <= a < b < order@.len() ==> #[trigger] order@[a] != #[trigger] order@[b],
            forall|a: int, b: int|
                0 <= a < b < order@.len() ==> goes_before(kv, #[trigger] order@[a] as int, #[trigger] order@[b] as int),
        decreases keys.len() - i,
    {
        let mut j: usize = 0;
        while j < order.len() && !text_before(&keys[order[j]], &keys[i])
            invariant
                0 <= j <= order@.len(),
                i < keys.len(),
                kv == keys@.map_values(|k: Vec<char>| k@),
                forall|a: int| 0 <= a < order@.len() ==> #[trigger] order@[a] < i,
                forall|a: int| 0 <= a < j ==> !text_less(kv[order@[a] as int], kv[i as int]),
            decreases order@.len() - j,
        {
            j = j + 1;
        }
        let ghost old_order = order@;
        proof {
            old_order.insert_ensures(j as int, i);
        }
        order.insert(j, i);
        proof {
            let o = order@;
            assert forall|a: int, b: int| 0 <= a < b < o.len() implies goes_before(
                kv,
                #[trigger] o[a] as int,
                #[trigger] o[b] as int,
            ) by {
                if b < j {
                    assert(o[a] == old_order[a] && o[b] == old_order[b]);
                } else if b == j {
                    assert(o[a] == old_order[a]);
                    law_text_order(kv[old_order[a] as int], kv[i as int], kv[i as int]);
                } else if a > j {
                    assert(o[a] == old_order[a - 1] && o[b] == old_order[b - 1]);
                } else if a == j {
                    let ob = old_order[b - 1] as int;
                    let oj = old_order[j as int] as int;
                    assert(o[b] == old_order[b - 1]);
                    assert(text_less(kv[oj], kv[i as int]));
                    if b - 1 > j {
                        assert(goes_before(kv, oj, ob));
                        law_text_order(kv[ob], kv[oj], kv[i as int]);
                    }
                } else {
                    assert(o[a] == old_order[a]);
                    assert(o[b] == old_order[b - 1]);
                }
            }
            assert forall|a: int, b: int| 0 <= a < b < o.len() implies #[trigger] o[a] != #[trigger] o[b] by {
                if a < j && b < j {
                    assert(o[a] == old_order[a] && o[b] == old_order[b]);
                } else if a < j && b == j {
                    assert(o[a] == old_order[a]);
                } else if a < j {
                    assert(o[a] == old_order[a] && o[b] == old_order[b - 1]);
                } else if a == j {
                    assert(o[b] == old_order[b - 1]);
                } else {
                    assert(o[a] == old_order[a - 1] && o[b] == old_order[b - 1]);
                }
            }
            assert forall|a: int| 0 <= a < o.len() implies #[trigger] o[a] < i + 1 by {
                if a < j {
                    assert(o[a] == old_order[a]);
                } else if a > j {
                    assert(o[a] == old_order[a - 1]);
                }
            }
        }
        i = i + 1;
    }
    let ghost ov = order@.map_values(|i: usize| i as int);
    assert forall|a: int, b: int| 0 <= a < b < ov.len() implies goes_before(kv, #[trigger] ov[a], #[trigger] ov[b]) by {
        assert(ov[a] == order@[a] as int);
        assert(ov[b] == order@[b] as int);
    }
    assert forall|a: int, b: int| 0 <= a < b < ov.len() implies #[trigger] ov[a] != #[trigger] ov[b] by {
        assert(ov[a] == order@[a] as int);
        assert(ov[b] == order@[b] as int);
    }
    assert forall|a: int| 0 <= a < ov.len() implies 0 <= #[trigger] ov[a] < kv.len() by {
        assert(ov[a] == order@[a] as int);
    }
    order
}


/// The sort keys of the entries, in order.
pub open spec fn entry_keys(items: Seq<Json>) -> Seq<Seq<char>> {
    items.map_values(|v: Json| sort_key(v@))
}

/// The summaries, newest first: by `id` text descending, entries with equal
/// ids in their original order.
pub fn newest_first(items: &Vec<Json>) -> (res: Vec<Json>)
    ensures
        exists|order: Seq<int>|
            {
                &&& #[trigger] is_newest_first_order(entry_keys(items@), order)
                &&& res@.len() == order.len()
                &&& forall|k: int| 0 <= k < order.len() ==> #[trigger] res@[k]@ == items@[order[k]]@
            },
        forall|a: int, b: int|
            0 <= a < b < res@.len() ==> !text_less(
                sort_key(#[trigger] res@[a]@),
                sort_key(#[trigger] res@[b]@),
            ),
{
    let ghost kspec = items@.map_values(|v: Json| sort_key(v@));
    let mut keys: Vec<Vec<char>> = Vec::new();
    let mut i: usize = 0;
    while i < items.len()
        invariant
            0 <= i <= items.len(),
            kspec == items@.map_values(|v: Json| sort_key(v@)),
            keys@.len() == i,
            forall|j: int| 0 <= j < i ==> #[trigger] keys@[j]@ == kspec[j],
        decreases items.len() - i,
    {
        let k = match items[i].get("id") {
            Some(Json::Str(id)) => chars_of(id.as_str()),
            _ => Vec::new(),
        };
        keys.push(k);
        i = i + 1;
    }
    assert(keys@.map_values(|k: Vec<char>| k@) =~= kspec);
    let order = newest_first_order(&keys);
    let ghost ov = order@.map_values(|i: usize| i as int);
    let mut res: Vec<Json> = Vec::new();
    let mut k: usize = 0;
    while k < order.len()
        invariant
            0 <= k <= order@.len(),
            is_newest_first_order(kspec, ov),
            ov == order@.map_values(|i: usize| i as int),
            kspec.len() == items@.len(),
            res@.len() == k,
            forall|j: int| 0 <= j < k ==> #[trigger] res@[j]@ == items@[ov[j]]@,
        decreases order@.len() - k,
    {
        assert(ov[k as int] == order@[k as int] as int);
        res.push(items[order[k]].deep_clone());
        k = k + 1;
    }
    assert forall|a: int, b: int| 0 <= a < b < res@.len() implies !text_less(
        sort_key(#[trigger] res@[a]@),
        sort_key(#[trigger] res@[b]@),
    ) by {
        assert(goes_before(kspec, ov[a], ov[b]));
        assert(kspec[ov[a]] == sort_key(items@[ov[a]]@));
        assert(kspec[ov[b]] == sort_key(items@[ov[b]]@));
        law_text_order(kspec[ov[a]], kspec[ov[b]], kspec[ov[b]]);
    }
    assert(is_newest_first_order(entry_keys(items@), ov));
    res
}


/// A stored entry is found again by its id: the id under which it is saved
/// is a safe id, so a later request with that id is not refused and names the
/// same file.
pub proof fn law_saved_entry_found_by_its_id(entry: JsonV)
    requires
        entry_id_spec(entry) is Some,
    ensures
        valid_id(entry_id_spec(entry)->Some_0),
        entry.get("id"@) == Some(JsonV::Str(entry_id_spec(entry)->Some_0)),
        file_name_for(entry_id_spec(entry)->Some_0) == entry_id_spec(entry)->Some_0 + ".json"@,
{
}

} // verus!
