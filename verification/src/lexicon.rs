//! Transcript analysis: forward-maximum-matching segmentation against the
//! combined dictionary, detection of filler, hedge, vague and emotion words,
//! the counts behind expression density, and improvement suggestions.

use vstd::prelude::*;
use crate::json::{
    Json, JsonV, items_view, lemma_members_view, members_view, overlay, overlay_members,
};
use crate::text::{
    blank, chars_of, decimal, is_blank, join, matches_at, push_decimal, push_str, string_of_chars,
};



verus! {

/// Filler words, in the order the analysis lists them.
pub open spec fn filler_words() -> Seq<Seq<char>> {
    seq![
        "嗯"@, "啊"@, "呃"@, "额"@, "那个"@, "就是"@, "然后"@, "这个"@, "对吧"@, "是吧"@,
        "你知道"@, "怎么说呢"@, "反正"@, "基本上"@, "总之"@, "所以说"@,
    ]
}

/// The filler words as string slices.
pub fn filler_list() -> (res: Vec<&'static str>)
    ensures
        res@.map_values(|w: &str| w@) == filler_words(),
{
    let res = vec![
        "嗯", "啊", "呃", "额", "那个", "就是", "然后", "这个", "对吧", "是吧", "你知道", "怎么说呢",
        "反正", "基本上", "总之", "所以说",
    ];
    assert(res@.map_values(|w: &str| w@) =~= filler_words());
    res
}


/// Hedge words, in the order the analysis lists them.
pub open spec fn hedge_words() -> Seq<Seq<char>> {
    seq![
        "可能"@, "也许"@, "大概"@, "应该"@, "我觉得"@, "好像"@, "似乎"@, "或许"@, "不一定"@, "差不多"@,
        "算是"@, "某种程度上"@, "一般来说"@, "感觉"@,
    ]
}

/// The hedge words as string slices.
pub fn hedge_list() -> (res: Vec<&'static str>)
    ensures
        res@.map_values(|w: &str| w@) == hedge_words(),
{
    let res = vec![
        "可能", "也许", "大概", "应该", "我觉得", "好像", "似乎", "或许", "不一定", "差不多", "算是",
        "某种程度上", "一般来说", "感觉",
    ];
    assert(res@.map_values(|w: &str| w@) =~= hedge_words());
    res
}

/// Vague words with their precise alternatives, in table order.
pub open spec fn vague_table() -> Seq<(Seq<char>, Seq<Seq<char>>)> {
    seq![
        ("开心"@, seq!["欣喜"@, "雀跃"@, "兴奋"@, "欣慰"@, "畅快"@, "满足"@]),
        ("难过"@, seq!["心酸"@, "失落"@, "委屈"@, "心疼"@, "沮丧"@, "低落"@]),
        ("害怕"@, seq!["恐惧"@, "焦虑"@, "不安"@, "慌张"@, "胆怯"@, "忐忑"@]),
        ("生气"@, seq!["愤怒"@, "恼火"@, "窝火"@, "气愤"@, "不满"@, "暴躁"@]),
        ("不舒服"@, seq!["压抑"@, "烦躁"@, "憋屈"@, "窒息"@, "煎熬"@, "疲惫"@]),
        ("很好"@, seq!["出色"@, "精彩"@, "优秀"@, "惊艳"@, "完美"@, "理想"@]),
        ("很多"@, seq!["大量"@, "海量"@, "充裕"@, "丰富"@, "密集"@, "可观"@]),
        ("很快"@, seq!["迅速"@, "飞速"@, "立刻"@, "瞬间"@, "即刻"@, "火速"@]),
        ("很大"@, seq!["巨大"@, "庞大"@, "显著"@, "惊人"@, "可观"@, "壮观"@]),
        ("很小"@, seq!["微小"@, "细微"@, "轻微"@, "渺小"@, "微不足道"@, "些许"@]),
        ("好看"@, seq!["精致"@, "优雅"@, "绚丽"@, "惊艳"@, "别致"@, "夺目"@]),
        ("不好"@, seq!["糟糕"@, "恶劣"@, "拙劣"@, "不堪"@, "惨淡"@, "低劣"@]),
        ("喜欢"@, seq!["热爱"@, "痴迷"@, "着迷"@, "钟爱"@, "倾心"@, "沉醉"@]),
        ("讨厌"@, seq!["厌恶"@, "反感"@, "排斥"@, "憎恨"@, "鄙视"@, "嫌弃"@]),
        ("觉得"@, seq!["认为"@, "判断"@, "确信"@, "推断"@, "意识到"@, "发现"@]),
        ("想"@, seq!["渴望"@, "期待"@, "向往"@, "盼望"@, "企图"@, "打算"@]),
        ("做"@, seq!["执行"@, "落实"@, "推进"@, "完成"@, "实施"@, "操作"@]),
        ("看"@, seq!["审视"@, "观察"@, "注视"@, "打量"@, "端详"@, "凝视"@]),
        ("说"@, seq!["表达"@, "阐述"@, "强调"@, "指出"@, "坦言"@, "声明"@]),
        ("想想"@, seq!["反思"@, "回顾"@, "审视"@, "复盘"@, "琢磨"@, "斟酌"@]),
    ]
}

/// The view of one row of the vague-word table.
pub open spec fn vague_row_view(row: (&str, Vec<&str>)) -> (Seq<char>, Seq<Seq<char>>) {
    (row.0@, row.1@.map_values(|w: &str| w@))
}

/// The vague words, in table order.
pub open spec fn vague_words() -> Seq<Seq<char>> {
    vague_table().map_values(|row: (Seq<char>, Seq<Seq<char>>)| row.0)
}

/// The table of vague words and their precise alternatives.
pub fn vague_to_precise() -> (res: Vec<(&'static str, Vec<&'static str>)>)
    ensures
        res@.map_values(|row: (&str, Vec<&str>)| vague_row_view(row)) == vague_table(),
{
    let res = vec![
        ("开心", vec!["欣喜", "雀跃", "兴奋", "欣慰", "畅快", "满足"]),
        ("难过", vec!["心酸", "失落", "委屈", "心疼", "沮丧", "低落"]),
        ("害怕", vec!["恐惧", "焦虑", "不安", "慌张", "胆怯", "忐忑"]),
        ("生气", vec!["愤怒", "恼火", "窝火", "气愤", "不满", "暴躁"]),
        ("不舒服", vec!["压抑", "烦躁", "憋屈", "窒息", "煎熬", "疲惫"]),
        ("很好", vec!["出色", "精彩", "优秀", "惊艳", "完美", "理想"]),
        ("很多", vec!["大量", "海量", "充裕", "丰富", "密集", "可观"]),
        ("很快", vec!["迅速", "飞速", "立刻", "瞬间", "即刻", "火速"]),
        ("很大", vec!["巨大", "庞大", "显著", "惊人", "可观", "壮观"]),
        ("很小", vec!["微小", "细微", "轻微", "渺小", "微不足道", "些许"]),
        ("好看", vec!["精致", "优雅", "绚丽", "惊艳", "别致", "夺目"]),
        ("不好", vec!["糟糕", "恶劣", "拙劣", "不堪", "惨淡", "低劣"]),
        ("喜欢", vec!["热爱", "痴迷", "着迷", "钟爱", "倾心", "沉醉"]),
        ("讨厌", vec!["厌恶", "反感", "排斥", "憎恨", "鄙视", "嫌弃"]),
        ("觉得", vec!["认为", "判断", "确信", "推断", "意识到", "发现"]),
        ("想", vec!["渴望", "期待", "向往", "盼望", "企图", "打算"]),
        ("做", vec!["执行", "落实", "推进", "完成", "实施", "操作"]),
        ("看", vec!["审视", "观察", "注视", "打量", "端详", "凝视"]),
        ("说", vec!["表达", "阐述", "强调", "指出", "坦言", "声明"]),
        ("想想", vec!["反思", "回顾", "审视", "复盘", "琢磨", "斟酌"]),
    ];
    assert forall|i: int| 0 <= i < res@.len() implies #[trigger] vague_row_view(res@[i])
        == vague_table()[i] by {
        assert(res@[i].1@.map_values(|w: &str| w@) =~= vague_table()[i].1);
    }
    assert(res@.map_values(|row: (&str, Vec<&str>)| vague_row_view(row)) =~= vague_table());
    res
}


/// The emotion words of the lexicon, each with the information recorded for it.
pub struct EmotionLexicon {
    /// The `emotions` member of the lexicon document: an object keyed by word.
    pub emotions: Json,
}

/// The keys of an object's members, in order; empty for any other value.
pub open spec fn member_keys(v: JsonV) -> Seq<Seq<char>> {
    match v {
        JsonV::Object(fields) => fields.map_values(|m: (Seq<char>, JsonV)| m.0),
        _ => Seq::empty(),
    }
}

impl EmotionLexicon {
    /// The emotion words, in the order the lexicon lists them.
    pub open spec fn words(&self) -> Seq<Seq<char>> {
        member_keys(self.emotions@)
    }

    /// The lexicon held in a lexicon document: its `emotions` member, or an
    /// empty object where the document has none.
    pub fn from_document(doc: &Json) -> (res: EmotionLexicon)
        ensures
            res.emotions@ == match doc@.get(seq!['e', 'm', 'o', 't', 'i', 'o', 'n', 's']) {
                Some(v) => v,
                None => JsonV::Object(Seq::empty()),
            },
    {
        let key = "emotions";
        proof {
            reveal_strlit("emotions");
        }
        assert(key@ =~= seq!['e', 'm', 'o', 't', 'i', 'o', 'n', 's']);
        match doc.get(key) {
            Some(v) => EmotionLexicon { emotions: v.deep_clone() },
            None => {
                let empty: Vec<(String, Json)> = Vec::new();
                proof {
                    lemma_members_view(empty@);
                }
                EmotionLexicon { emotions: Json::Object(empty) }
            },
        }
    }
}

/// The combined dictionary that segmentation matches against.
pub open spec fn dictionary(emotion_words: Seq<Seq<char>>) -> Seq<Seq<char>> {
    filler_words() + hedge_words() + vague_words() + emotion_words
}

/// The dictionary of `lexicon`, each word as its characters; membership is
/// decided by comparing characters, so a list serves where a set would.
fn build_dictionary(lexicon: &EmotionLexicon) -> (res: Vec<Vec<char>>)
    ensures
        res@.map_values(|w: Vec<char>| w@) == dictionary(lexicon.words()),
{
    let ghost target = dictionary(lexicon.words());
    let mut res: Vec<Vec<char>> = Vec::new();
    let fillers = filler_list();
    let hedges = hedge_list();
    let vague = vague_to_precise();
    let ghost nf = fillers@.len() as int;
    let ghost nh = hedges@.len() as int;
    let ghost nv = vague@.len() as int;
    assert(fillers@.map_values(|w: &str| w@).len() == nf);
    assert(hedges@.map_values(|w: &str| w@).len() == nh);
    assert(vague@.map_values(|row: (&str, Vec<&str>)| vague_row_view(row)).len() == nv);
    let mut i: usize = 0;
    while i < fillers.len()
        invariant
            0 <= i <= fillers.len(),
            nf == fillers@.len(),
            fillers@.map_values(|w: &str| w@) == filler_words(),
            target == dictionary(lexicon.words()),
            res@.len() == i,
            forall|j: int| 0 <= j < i ==> #[trigger] res@[j]@ == target[j],
        decreases fillers.len() - i,
    {
        let w = chars_of(fillers[i]);
        assert(fillers@.map_values(|w: &str| w@)[i as int] == fillers@[i as int]@);
        res.push(w);
        i = i + 1;
    }
    let mut i: usize = 0;
    while i < hedges.len()
        invariant
            0 <= i <= hedges.len(),
            nf == filler_words().len(),
            nh == hedges@.len(),
            hedges@.map_values(|w: &str| w@) == hedge_words(),
            target == dictionary(lexicon.words()),
            res@.len() == nf + i,
            forall|j: int| 0 <= j < nf + i ==> #[trigger] res@[j]@ == target[j],
        decreases hedges.len() - i,
    {
        let w = chars_of(hedges[i]);
        assert(hedges@.map_values(|w: &str| w@)[i as int] == hedges@[i as int]@);
        res.push(w);
        i = i + 1;
    }
    let mut i: usize = 0;
    while i < vague.len()
        invariant
            0 <= i <= vague.len(),
            nf == filler_words().len(),
            nh == hedge_words().len(),
            nv == vague@.len(),
            vague@.map_values(|row: (&str, Vec<&str>)| vague_row_view(row)) == vague_table(),
            target == dictionary(lexicon.words()),
            res@.len() == nf + nh + i,
            forall|j: int| 0 <= j < nf + nh + i ==> #[trigger] res@[j]@ == target[j],
        decreases vague.len() - i,
    {
        let w = chars_of(vague[i].0);
        assert(vague@.map_values(|row: (&str, Vec<&str>)| vague_row_view(row))[i as int]
            == vague_row_view(vague@[i as int]));
        res.push(w);
        i = i + 1;
    }
    match &lexicon.emotions {
        Json::Object(fields) => {
            let ghost nb = (nf + nh + nv) as int;
            proof {
                lemma_members_view(fields@);
            }
            let mut i: usize = 0;
            while i < fields.len()
                invariant
                    0 <= i <= fields.len(),
                    nb == filler_words().len() + hedge_words().len() + vague_words().len(),
                    lexicon.emotions@ == JsonV::Object(members_view(fields@)),
                    members_view(fields@).len() == fields.len(),
                    forall|j: int|
                        0 <= j < fields.len() ==> #[trigger] members_view(fields@)[j] == (
                            fields@[j].0@,
                            fields@[j].1@,
                        ),
                    target == dictionary(lexicon.words()),
                    res@.len() == nb + i,
                    forall|j: int| 0 <= j < nb + i ==> #[trigger] res@[j]@ == target[j],
                decreases fields.len() - i,
            {
                let w = chars_of(fields[i].0.as_str());
                res.push(w);
                i = i + 1;
            }
        },
        _ => {},
    }
    assert(res@.map_values(|w: Vec<char>| w@) =~= target);
    res
}

/// Whether the dictionary holds the characters of `text` at `start..start + len`.
fn dict_contains(dict: &Vec<Vec<char>>, text: &Vec<char>, start: usize, len: usize) -> (res: bool)
    requires
        start + len <= text.len(),
    ensures
        res == dict@.map_values(|w: Vec<char>| w@).contains(text@.subrange(start as int, start + len)),
{
    let ghost d = dict@.map_values(|w: Vec<char>| w@);
    let ghost cand = text@.subrange(start as int, start + len);
    let mut i: usize = 0;
    while i < dict.len()
        invariant
            0 <= i <= dict.len(),
            d == dict@.map_values(|w: Vec<char>| w@),
            cand == text@.subrange(start as int, start + len),
            start + len <= text.len(),
            forall|j: int| 0 <= j < i ==> d[j] != cand,
        decreases dict.len() - i,
    {
        if matches_at(text, start, len, &dict[i]) {
            assert(d[i as int] == cand);
            return true;
        }
        i = i + 1;
    }
    false
}

/// The length forward maximum matching takes at `start`, trying the candidate
/// lengths `len` down to 2: the first candidate found in the dictionary, else 1.
pub open spec fn longest_match(chars: Seq<char>, start: int, len: int, dict: Seq<Seq<char>>) -> int
    decreases len,
{
    if len < 2 {
        1
    } else if dict.contains(chars.subrange(start, start + len)) {
        len
    } else {
        longest_match(chars, start, len - 1, dict)
    }
}

/// The longest candidate length at `start`: six characters, or what remains.
pub open spec fn max_candidate(chars: Seq<char>, start: int) -> int {
    if chars.len() - start < 6 {
        chars.len() - start
    } else {
        6
    }
}

/// The length of the word that segmentation takes at `start`.
pub open spec fn match_len_at(chars: Seq<char>, start: int, dict: Seq<Seq<char>>) -> int {
    longest_match(chars, start, max_candidate(chars, start), dict)
}

/// The length that forward maximum matching takes lies between one and `len`
/// (or is one).
pub proof fn lemma_longest_match_bounds(chars: Seq<char>, start: int, len: int, dict: Seq<Seq<char>>)
    ensures
        1 <= longest_match(chars, start, len, dict),
        longest_match(chars, start, len, dict) <= if len < 1 { 1 } else { len },
    decreases len,
{
    if len >= 2 && !dict.contains(chars.subrange(start, start + len)) {
        lemma_longest_match_bounds(chars, start, len - 1, dict);
    }
}

/// Forward-maximum-matching segmentation of `chars` from `start` on.
pub open spec fn segment_from(chars: Seq<char>, start: int, dict: Seq<Seq<char>>) -> Seq<Seq<char>>
    decreases chars.len() - start,
{
    if start < 0 || start >= chars.len() {
        Seq::empty()
    } else {
        let len = match_len_at(chars, start, dict);
        proof {
            lemma_longest_match_bounds(chars, start, max_candidate(chars, start), dict);
        }
        seq![chars.subrange(start, start + len)] + segment_from(chars, start + len, dict)
    }
}

/// The segmentation of a whole text against the dictionary.
pub open spec fn segmentation(text: Seq<char>, dict: Seq<Seq<char>>) -> Seq<Seq<char>> {
    segment_from(text, 0, dict)
}

/// Splits `text` into words by forward maximum matching against the
/// dictionary of filler, hedge, vague and emotion words: at each position the
/// longest dictionary word of two to six characters is taken, else one character.
fn segment_pieces(text: &str, lexicon: &EmotionLexicon) -> (res: Vec<Vec<char>>)
    ensures
        res@.map_values(|w: Vec<char>| w@) == segmentation(text@, dictionary(lexicon.words())),
{
    let chars = chars_of(text);
    let dict = build_dictionary(lexicon);
    let ghost d = dictionary(lexicon.words());
    let ghost cs = text@;
    let mut words: Vec<Vec<char>> = Vec::new();
    let mut i: usize = 0;
    while i < chars.len()
        invariant
            0 <= i <= chars.len(),
            chars@ == cs,
            dict@.map_values(|w: Vec<char>| w@) == d,
            segment_from(cs, 0, d) == words@.map_values(|w: Vec<char>| w@) + segment_from(cs, i as int, d),
        decreases chars.len() - i,
    {
        let upper: usize = if chars.len() - i < 6 { chars.len() - i } else { 6 };
        let mut len: usize = upper;
        let mut found = false;
        while len >= 2
            invariant_except_break
                !found,
                longest_match(cs, i as int, upper as int, d) == longest_match(cs, i as int, len as int, d),
            invariant
                0 <= len <= upper,
                upper == max_candidate(cs, i as int),
                i < chars.len(),
                i + upper <= chars.len(),
                chars@ == cs,
                dict@.map_values(|w: Vec<char>| w@) == d,
            ensures
                found ==> longest_match(cs, i as int, upper as int, d) == len,
                !found ==> longest_match(cs, i as int, upper as int, d) == 1,
            decreases len,
        {
            if dict_contains(&dict, &chars, i, len) {
                found = true;
                break;
            }
            len = len - 1;
        }
        let take: usize = if found { len } else { 1 };
        assert(take == match_len_at(cs, i as int, d));
        let mut piece: Vec<char> = Vec::new();
        let mut k: usize = 0;
        while k < take
            invariant
                0 <= k <= take,
                i + take <= chars.len(),
                piece@ == chars@.subrange(i as int, i + k),
            decreases take - k,
        {
            piece.push(chars[i + k]);
            assert(piece@ =~= chars@.subrange(i as int, i + k + 1));
            k = k + 1;
        }
        let ghost before = words@.map_values(|w: Vec<char>| w@);
        let ghost pv = piece@;
        words.push(piece);
        assert(words@.map_values(|w: Vec<char>| w@) =~= before.push(pv));
        assert(segment_from(cs, i as int, d) == seq![pv] + segment_from(cs, i + take, d));
        assert(before + segment_from(cs, i as int, d) =~= before.push(pv) + segment_from(cs, i + take, d));
        i = i + take;
    }
    assert(segment_from(cs, i as int, d) =~= Seq::<Seq<char>>::empty());
    assert(words@.map_values(|w: Vec<char>| w@) + Seq::<Seq<char>>::empty() =~= words@.map_values(|w: Vec<char>| w@));
    words
}


/// Splits `text` into words by forward maximum matching against the
/// dictionary of filler, hedge, vague and emotion words: at each position the
/// longest dictionary word of two to six characters is taken, else one character.
pub fn segment_text(text: &str, lexicon: &EmotionLexicon) -> (res: Vec<String>)
    ensures
        res@.map_values(|w: String| w@) == segmentation(text@, dictionary(lexicon.words())),
{
    let pieces = segment_pieces(text, lexicon);
    let mut words: Vec<String> = Vec::new();
    let mut i: usize = 0;
    while i < pieces.len()
        invariant
            0 <= i <= pieces.len(),
            words@.len() == i,
            forall|j: int| 0 <= j < i ==> #[trigger] words@[j]@ == pieces@[j]@,
        decreases pieces.len() - i,
    {
        words.push(string_of_chars(&pieces[i]));
        i = i + 1;
    }
    assert(words@.map_values(|w: String| w@) =~= pieces@.map_values(|w: Vec<char>| w@));
    words
}

/// What forward maximum matching takes at one position: a single character,
/// or a dictionary word of at least two characters; and no longer candidate
/// up to `len` is a dictionary word.
pub proof fn lemma_longest_match(chars: Seq<char>, start: int, len: int, dict: Seq<Seq<char>>)
    ensures
        longest_match(chars, start, len, dict) == 1 || (2 <= longest_match(chars, start, len, dict)
            <= len && dict.contains(
            chars.subrange(start, start + longest_match(chars, start, len, dict)),
        )),
        forall|l: int|
            longest_match(chars, start, len, dict) < l <= len && 2 <= l ==> !dict.contains(
                #[trigger] chars.subrange(start, start + l),
            ),
    decreases len,
{
    if len >= 2 && !dict.contains(chars.subrange(start, start + len)) {
        lemma_longest_match(chars, start, len - 1, dict);
    }
}

/// The position in the text at which the `k`-th word of `words` starts.
pub open spec fn word_start(words: Seq<Seq<char>>, k: int) -> int {
    words.take(k).flatten().len() as int
}

/// Flattening a sequence that starts with `a`.
proof fn lemma_flatten_cons(a: Seq<char>, rest: Seq<Seq<char>>)
    ensures
        (seq![a] + rest).flatten() == a + rest.flatten(),
{
    assert((seq![a] + rest).drop_first() =~= rest);
    assert((seq![a] + rest).first() == a);
}

/// The segmentation from `start` reassembles the rest of the text, and its
/// `k`-th word is what matching takes at the position where that word starts.
proof fn lemma_segment_from(chars: Seq<char>, start: int, dict: Seq<Seq<char>>)
    requires
        0 <= start <= chars.len(),
    ensures
        segment_from(chars, start, dict).flatten() == chars.subrange(start, chars.len() as int),
        forall|k: int|
            #![trigger segment_from(chars, start, dict)[k]]
            #![trigger word_start(segment_from(chars, start, dict), k)]
            0 <= k < segment_from(chars, start, dict).len() ==> {
                let p = start + word_start(segment_from(chars, start, dict), k);
                &&& start <= p < chars.len()
                &&& segment_from(chars, start, dict)[k] == chars.subrange(
                    p,
                    p + match_len_at(chars, p, dict),
                )
            },
    decreases chars.len() - start,
{
    let ws = segment_from(chars, start, dict);
    if start == chars.len() {
        assert(ws == Seq::<Seq<char>>::empty());
        assert(chars.subrange(start, chars.len() as int) =~= Seq::<char>::empty());
    } else {
        let len = match_len_at(chars, start, dict);
        lemma_longest_match_bounds(chars, start, max_candidate(chars, start), dict);
        let w0 = chars.subrange(start, start + len);
        let rest = segment_from(chars, start + len, dict);
        lemma_segment_from(chars, start + len, dict);
        assert(ws == seq![w0] + rest);
        lemma_flatten_cons(w0, rest);
        assert(w0 + chars.subrange(start + len, chars.len() as int) =~= chars.subrange(
            start,
            chars.len() as int,
        ));
        assert forall|k: int|
            #![trigger ws[k]]
            #![trigger word_start(ws, k)]
            0 <= k < ws.len() implies {
            let p = start + word_start(ws, k);
            &&& start <= p < chars.len()
            &&& ws[k] == chars.subrange(p, p + match_len_at(chars, p, dict))
        } by {
            if k == 0 {
                assert(ws.take(0) =~= Seq::<Seq<char>>::empty());
                assert(word_start(ws, 0) == 0);
                assert(start < chars.len());
            } else {
                assert(ws.take(k) =~= seq![w0] + rest.take(k - 1));
                lemma_flatten_cons(w0, rest.take(k - 1));
                assert(w0.len() == len);
                assert(word_start(ws, k) == len + word_start(rest, k - 1));
                assert(ws[k] == rest[k - 1]);
                let q = start + len + word_start(rest, k - 1);
                assert(rest[k - 1] == chars.subrange(q, q + match_len_at(chars, q, dict)));
                assert(start + len <= q < chars.len());
            }
        }
    }
}

/// The words of a segmentation, concatenated in order, give back the text.
pub proof fn law_segmentation_reassembles_text(text: Seq<char>, dict: Seq<Seq<char>>)
    ensures
        segmentation(text, dict).flatten() == text,
{
    lemma_segment_from(text, 0, dict);
    assert(text.subrange(0, text.len() as int) =~= text);
}

/// Every word of a segmentation has one to six characters, and every word of
/// two or more characters is a dictionary word.
pub proof fn law_segmentation_words_are_dictionary_words(text: Seq<char>, dict: Seq<Seq<char>>)
    ensures
        forall|k: int|
            0 <= k < segmentation(text, dict).len() ==> {
                let w = #[trigger] segmentation(text, dict)[k];
                &&& 1 <= w.len() <= 6
                &&& w.len() >= 2 ==> dict.contains(w)
            },
{
    lemma_segment_from(text, 0, dict);
    let ws = segmentation(text, dict);
    assert forall|k: int| 0 <= k < ws.len() implies {
        let w = #[trigger] ws[k];
        &&& 1 <= w.len() <= 6
        &&& w.len() >= 2 ==> dict.contains(w)
    } by {
        let p = word_start(ws, k);
        lemma_longest_match(text, p, max_candidate(text, p), dict);
        lemma_longest_match_bounds(text, p, max_candidate(text, p), dict);
    }
}

/// The `l` characters of `text` from position `p` on.
pub open spec fn candidate_at(text: Seq<char>, p: int, l: int) -> Seq<char> {
    text.subrange(p, p + l)
}

/// Segmentation is maximal: at the position where a word starts, no longer
/// candidate of at most six characters (within the text) is a dictionary word.
pub proof fn law_segmentation_takes_longest_match(text: Seq<char>, dict: Seq<Seq<char>>)
    ensures
        forall|k: int, l: int|
            0 <= k < segmentation(text, dict).len() && segmentation(text, dict)[k].len() < l <= 6
                && 2 <= l && word_start(segmentation(text, dict), k) + l <= text.len()
                ==> !dict.contains(
                #[trigger] candidate_at(text, word_start(segmentation(text, dict), k), l),
            ),
{
    lemma_segment_from(text, 0, dict);
    let ws = segmentation(text, dict);
    assert forall|k: int, l: int|
        0 <= k < ws.len() && ws[k].len() < l <= 6 && 2 <= l && word_start(ws, k) + l
            <= text.len() implies !dict.contains(#[trigger] candidate_at(text, word_start(ws, k), l)) by {
        let p = word_start(ws, k);
        lemma_longest_match(text, p, max_candidate(text, p), dict);
        lemma_longest_match_bounds(text, p, max_candidate(text, p), dict);
        assert(ws[k] == text.subrange(p, p + match_len_at(text, p, dict)));
        assert(candidate_at(text, p, l) == text.subrange(p, p + l));
    }
}


/// Every filler, hedge and vague word, and every emotion word of the lexicon,
/// is a word of the dictionary that segmentation matches against.
pub proof fn law_dictionary_holds_every_list(emotion_words: Seq<Seq<char>>)
    ensures
        forall|w: Seq<char>| filler_words().contains(w) ==> #[trigger] dictionary(emotion_words).contains(w),
        forall|w: Seq<char>| hedge_words().contains(w) ==> #[trigger] dictionary(emotion_words).contains(w),
        forall|w: Seq<char>| vague_words().contains(w) ==> #[trigger] dictionary(emotion_words).contains(w),
        forall|w: Seq<char>| emotion_words.contains(w) ==> #[trigger] dictionary(emotion_words).contains(w),
{
    let d = dictionary(emotion_words);
    let nf = filler_words().len() as int;
    let nh = hedge_words().len() as int;
    let nv = vague_words().len() as int;
    assert forall|w: Seq<char>| filler_words().contains(w) implies #[trigger] d.contains(w) by {
        let i = choose|i: int| 0 <= i < nf && filler_words()[i] == w;
        assert(d[i] == w);
    }
    assert forall|w: Seq<char>| hedge_words().contains(w) implies #[trigger] d.contains(w) by {
        let i = choose|i: int| 0 <= i < nh && hedge_words()[i] == w;
        assert(d[nf + i] == w);
    }
    assert forall|w: Seq<char>| vague_words().contains(w) implies #[trigger] d.contains(w) by {
        let i = choose|i: int| 0 <= i < nv && vague_words()[i] == w;
        assert(d[nf + nh + i] == w);
    }
    assert forall|w: Seq<char>| emotion_words.contains(w) implies #[trigger] d.contains(w) by {
        let i = choose|i: int| 0 <= i < emotion_words.len() && emotion_words[i] == w;
        assert(d[nf + nh + nv + i] == w);
    }
}

/// Where the candidate of `l` characters at `start` is a dictionary word (or
/// `l` is one) and no longer candidate up to `len` is, matching takes `l`.
proof fn lemma_longest_match_takes(chars: Seq<char>, start: int, len: int, dict: Seq<Seq<char>>, l: int)
    requires
        1 <= l,
        l <= len || l == 1,
        l >= 2 ==> dict.contains(chars.subrange(start, start + l)),
        forall|m: int| l < m <= len ==> !dict.contains(#[trigger] chars.subrange(start, start + m)),
    ensures
        longest_match(chars, start, len, dict) == l,
    decreases len,
{
    if len >= 2 && len != l {
        assert(!dict.contains(chars.subrange(start, start + len)));
        lemma_longest_match_takes(chars, start, len - 1, dict, l);
    }
}

/// A text that opens with a filler word, where no longer dictionary word of at
/// most six characters starts the text, has that filler as its first word, and
/// the analysis reports it as a filler at position 0: filler words are found
/// because they are dictionary words.
pub proof fn law_leading_filler_is_found(text: Seq<char>, emotion_words: Seq<Seq<char>>, w: Seq<char>)
    requires
        filler_words().contains(w),
        w.len() <= text.len(),
        text.subrange(0, w.len() as int) == w,
        forall|l: int|
            w.len() < l <= 6 && l <= text.len() ==> !dictionary(emotion_words).contains(
                #[trigger] text.subrange(0, l),
            ),
    ensures
        segmentation(text, dictionary(emotion_words))[0] == w,
        hits_in(segmentation(text, dictionary(emotion_words)), filler_words()).len() > 0,
        hits_in(segmentation(text, dictionary(emotion_words)), filler_words())[0] == (w, 0int),
{
    let d = dictionary(emotion_words);
    law_dictionary_holds_every_list(emotion_words);
    assert(d.contains(w));
    let i = choose|i: int| 0 <= i < filler_words().len() && filler_words()[i] == w;
    reveal_strlit("嗯");
    reveal_strlit("啊");
    reveal_strlit("呃");
    reveal_strlit("额");
    reveal_strlit("那个");
    reveal_strlit("就是");
    reveal_strlit("然后");
    reveal_strlit("这个");
    reveal_strlit("对吧");
    reveal_strlit("是吧");
    reveal_strlit("你知道");
    reveal_strlit("怎么说呢");
    reveal_strlit("反正");
    reveal_strlit("基本上");
    reveal_strlit("总之");
    reveal_strlit("所以说");
    assert(1 <= w.len() <= 6);
    let mc = max_candidate(text, 0);
    assert forall|m: int| w.len() < m <= mc implies !d.contains(#[trigger] text.subrange(0, 0 + m)) by {
        assert(0 + m == m);
        assert(!d.contains(text.subrange(0, m)));
    }
    let wl = w.len() as int;
    assert(wl >= 2 ==> d.contains(text.subrange(0, 0 + wl)));
    lemma_longest_match_takes(text, 0, mc, d, wl);
    let ws = segmentation(text, d);
    lemma_longest_match_bounds(text, 0, mc, d);
    assert(ws == seq![text.subrange(0, 0 + wl)] + segment_from(text, 0 + wl, d));
    assert(ws[0] == w);
    let ps = positions(ws);
    assert(ps =~= seq![(w, 0int)] + ps.drop_first());
    ps.drop_first().lemma_filter_prepend((w, 0int), in_list(filler_words()));
    assert(in_list(filler_words())((w, 0int)));
}

/// The alternatives that `rows` give for `word`: those of its first row with that key.
pub open spec fn table_lookup(rows: Seq<(Seq<char>, Seq<Seq<char>>)>, word: Seq<char>) -> Option<
    Seq<Seq<char>>,
>
    decreases rows.len(),
{
    if rows.len() == 0 {
        None
    } else if rows[0].0 == word {
        Some(rows[0].1)
    } else {
        table_lookup(rows.drop_first(), word)
    }
}

/// The precise alternatives for a vague word, or `None` for any other word.
pub open spec fn vague_alternatives(word: Seq<char>) -> Option<Seq<Seq<char>>> {
    table_lookup(vague_table(), word)
}

/// A table has an entry for a word exactly when the word is one of its keys.
pub proof fn lemma_table_lookup_contains(rows: Seq<(Seq<char>, Seq<Seq<char>>)>, word: Seq<char>)
    ensures
        table_lookup(rows, word) is Some <==> rows.map_values(
            |row: (Seq<char>, Seq<Seq<char>>)| row.0,
        ).contains(word),
    decreases rows.len(),
{
    let keys = rows.map_values(|row: (Seq<char>, Seq<Seq<char>>)| row.0);
    if rows.len() > 0 {
        lemma_table_lookup_contains(rows.drop_first(), word);
        let rest = rows.drop_first().map_values(|row: (Seq<char>, Seq<Seq<char>>)| row.0);
        assert(rest =~= keys.drop_first());
        assert(keys[0] == rows[0].0);
        if keys.contains(word) && rows[0].0 != word {
            let k = choose|k: int| 0 <= k < keys.len() && keys[k] == word;
            assert(rest[k - 1] == word);
        }
        if rest.contains(word) {
            let k = choose|k: int| 0 <= k < rest.len() && rest[k] == word;
            assert(keys[k + 1] == word);
        }
    }
}

/// The precise alternatives for `word` when it is a vague word.
pub fn vague_lookup(word: &str) -> (res: Option<Vec<&'static str>>)
    ensures
        match res {
            Some(alts) => vague_alternatives(word@) == Some(alts@.map_values(|w: &str| w@)),
            None => vague_alternatives(word@) is None,
        },
{
    let table = vague_to_precise();
    let ghost rows = vague_table();
    let wc = chars_of(word);
    assert(rows.skip(0) =~= rows);
    let mut i: usize = 0;
    while i < table.len()
        invariant
            0 <= i <= table.len(),
            wc@ == word@,
            rows == vague_table(),
            table@.map_values(|row: (&str, Vec<&str>)| vague_row_view(row)) == rows,
            table_lookup(rows, word@) == table_lookup(rows.skip(i as int), word@),
        decreases table.len() - i,
    {
        assert(rows.skip(i as int).drop_first() =~= rows.skip(i + 1));
        assert(rows.skip(i as int)[0] == rows[i as int]);
        assert(rows[i as int] == vague_row_view(table@[i as int]));
        let kc = chars_of(table[i].0);
        assert(wc@.subrange(0, wc@.len() as int) =~= wc@);
        if matches_at(&wc, 0, wc.len(), &kc) {
            let mut alts: Vec<&'static str> = Vec::new();
            let mut k: usize = 0;
            while k < table[i].1.len()
                invariant
                    0 <= k <= table@[i as int].1.len(),
                    i < table.len(),
                    alts@.len() == k,
                    forall|j: int| 0 <= j < k ==> #[trigger] alts@[j] == table@[i as int].1@[j],
                decreases table@[i as int].1.len() - k,
            {
                alts.push(table[i].1[k]);
                k = k + 1;
            }
            assert(alts@.map_values(|w: &str| w@) =~= table@[i as int].1@.map_values(|w: &str| w@));
            return Some(alts);
        }
        i = i + 1;
    }
    None
}

/// Each word of `words` paired with its position.
pub open spec fn positions(words: Seq<Seq<char>>) -> Seq<(Seq<char>, int)> {
    Seq::new(words.len(), |i: int| (words[i], i))
}

/// The words of `words` that occur in `list`, with their positions, in order.
pub open spec fn hits_in(words: Seq<Seq<char>>, list: Seq<Seq<char>>) -> Seq<(Seq<char>, int)> {
    positions(words).filter(in_list(list))
}

/// Whether a positioned word occurs in `list`.
pub open spec fn in_list(list: Seq<Seq<char>>) -> spec_fn((Seq<char>, int)) -> bool {
    |p: (Seq<char>, int)| list.contains(p.0)
}

/// Whether a positioned word is a member of the emotion object.
pub open spec fn in_emotions(emotions: JsonV) -> spec_fn((Seq<char>, int)) -> bool {
    |p: (Seq<char>, int)| emotions.get(p.0) is Some
}

/// The words of `words` that are members of the emotion object, with their positions.
pub open spec fn emotion_hits(words: Seq<Seq<char>>, emotions: JsonV) -> Seq<(Seq<char>, int)> {
    positions(words).filter(in_emotions(emotions))
}

/// A word found in the text, with its position among the words.
pub struct WordHit {
    pub word: String,
    pub position: usize,
}

impl View for WordHit {
    type V = (Seq<char>, int);

    open spec fn view(&self) -> (Seq<char>, int) {
        (self.word@, self.position as int)
    }
}

/// A vague word found in the text, with its position and precise alternatives.
pub struct VagueHit {
    pub word: String,
    pub position: usize,
    pub alternatives: Vec<&'static str>,
}

impl View for VagueHit {
    type V = (Seq<char>, int, Seq<Seq<char>>);

    open spec fn view(&self) -> (Seq<char>, int, Seq<Seq<char>>) {
        (self.word@, self.position as int, self.alternatives@.map_values(|w: &str| w@))
    }
}

/// An emotion word found in the text, with its position and the lexicon's
/// information about it.
pub struct EmotionHit {
    pub word: String,
    pub position: usize,
    pub info: Json,
}

impl View for EmotionHit {
    type V = (Seq<char>, int, JsonV);

    open spec fn view(&self) -> (Seq<char>, int, JsonV) {
        (self.word@, self.position as int, self.info@)
    }
}

/// The vague hits of `words`: each with the alternatives the table gives for it.
pub open spec fn vague_hits(words: Seq<Seq<char>>) -> Seq<(Seq<char>, int, Seq<Seq<char>>)> {
    hits_in(words, vague_words()).map_values(
        |p: (Seq<char>, int)| (p.0, p.1, vague_alternatives(p.0).unwrap()),
    )
}

/// The emotion hits of `words`: each with the information the lexicon holds for it.
pub open spec fn emotion_hit_infos(words: Seq<Seq<char>>, emotions: JsonV) -> Seq<
    (Seq<char>, int, JsonV),
> {
    emotion_hits(words, emotions).map_values(
        |p: (Seq<char>, int)| (p.0, p.1, emotions.get(p.0).unwrap()),
    )
}

/// The characters of each word of `list`.
fn list_chars(list: &Vec<&str>) -> (res: Vec<Vec<char>>)
    ensures
        res@.map_values(|w: Vec<char>| w@) == list@.map_values(|w: &str| w@),
{
    let mut res: Vec<Vec<char>> = Vec::new();
    let mut i: usize = 0;
    while i < list.len()
        invariant
            0 <= i <= list.len(),
            res@.len() == i,
            forall|j: int| 0 <= j < i ==> #[trigger] res@[j]@ == list@[j]@,
        decreases list.len() - i,
    {
        res.push(chars_of(list[i]));
        i = i + 1;
    }
    assert(res@.map_values(|w: Vec<char>| w@) =~= list@.map_values(|w: &str| w@));
    res
}

/// Whether `list` holds `word`.
fn list_contains(list: &Vec<Vec<char>>, word: &Vec<char>) -> (res: bool)
    ensures
        res == list@.map_values(|w: Vec<char>| w@).contains(word@),
{
    let ghost l = list@.map_values(|w: Vec<char>| w@);
    assert(word@.subrange(0, word@.len() as int) =~= word@);
    let mut i: usize = 0;
    while i < list.len()
        invariant
            0 <= i <= list.len(),
            l == list@.map_values(|w: Vec<char>| w@),
            word@.subrange(0, word@.len() as int) == word@,
            forall|j: int| 0 <= j < i ==> l[j] != word@,
        decreases list.len() - i,
    {
        if matches_at(word, 0, word.len(), &list[i]) {
            assert(l[i as int] == word@);
            return true;
        }
        i = i + 1;
    }
    false
}


/// One more element of a sequence, filtered.
proof fn lemma_filter_take_step<A>(s: Seq<A>, i: int, pred: spec_fn(A) -> bool)
    requires
        0 <= i < s.len(),
    ensures
        s.take(i + 1).filter(pred) == if pred(s[i]) {
            s.take(i).filter(pred).push(s[i])
        } else {
            s.take(i).filter(pred)
        },
{
    reveal(Seq::filter);
    assert(s.take(i + 1).drop_last() =~= s.take(i));
    assert(s.take(i + 1).last() == s[i]);
}

/// The words of `pieces` that occur in `list`, with their positions.
fn collect_list_hits(pieces: &Vec<Vec<char>>, list: &Vec<Vec<char>>) -> (res: Vec<WordHit>)
    ensures
        res@.map_values(|h: WordHit| h@) == hits_in(
            pieces@.map_values(|w: Vec<char>| w@),
            list@.map_values(|w: Vec<char>| w@),
        ),
{
    let ghost words = pieces@.map_values(|w: Vec<char>| w@);
    let ghost l = list@.map_values(|w: Vec<char>| w@);
    let ghost ps = positions(words);
    let mut res: Vec<WordHit> = Vec::new();
    let mut i: usize = 0;
    assert(ps.take(0).filter(in_list(l)) =~= Seq::<(Seq<char>, int)>::empty()) by {
        reveal(Seq::filter);
    }
    while i < pieces.len()
        invariant
            0 <= i <= pieces.len(),
            words == pieces@.map_values(|w: Vec<char>| w@),
            l == list@.map_values(|w: Vec<char>| w@),
            ps == positions(words),
            res@.map_values(|h: WordHit| h@) == ps.take(i as int).filter(in_list(l)),
        decreases pieces.len() - i,
    {
        proof {
            lemma_filter_take_step(ps, i as int, in_list(l));
        }
        assert(ps[i as int] == (pieces@[i as int]@, i as int));
        if list_contains(list, &pieces[i]) {
            let ghost before = res@.map_values(|h: WordHit| h@);
            res.push(WordHit { word: string_of_chars(&pieces[i]), position: i });
            assert(res@.map_values(|h: WordHit| h@) =~= before.push(ps[i as int]));
        }
        i = i + 1;
    }
    assert(ps.take(pieces.len() as int) =~= ps);
    res
}

/// The vague words of `pieces`, with their positions and alternatives.
fn collect_vague_hits(pieces: &Vec<Vec<char>>) -> (res: Vec<VagueHit>)
    ensures
        res@.map_values(|h: VagueHit| h@) == vague_hits(pieces@.map_values(|w: Vec<char>| w@)),
{
    let ghost words = pieces@.map_values(|w: Vec<char>| w@);
    let ghost ps = positions(words);
    let ghost f = |p: (Seq<char>, int)| (p.0, p.1, vague_alternatives(p.0).unwrap());
    let mut res: Vec<VagueHit> = Vec::new();
    let mut i: usize = 0;
    assert(ps.take(0).filter(in_list(vague_words())) =~= Seq::<(Seq<char>, int)>::empty()) by {
        reveal(Seq::filter);
    }
    while i < pieces.len()
        invariant
            0 <= i <= pieces.len(),
            words == pieces@.map_values(|w: Vec<char>| w@),
            ps == positions(words),
            f == |p: (Seq<char>, int)| (p.0, p.1, vague_alternatives(p.0).unwrap()),
            res@.map_values(|h: VagueHit| h@) == ps.take(i as int).filter(
                in_list(vague_words()),
            ).map_values(f),
        decreases pieces.len() - i,
    {
        proof {
            lemma_filter_take_step(ps, i as int, in_list(vague_words()));
            lemma_table_lookup_contains(vague_table(), pieces@[i as int]@);
            assert(vague_words() =~= vague_table().map_values(
                |row: (Seq<char>, Seq<Seq<char>>)| row.0,
            ));
        }
        assert(ps[i as int] == (pieces@[i as int]@, i as int));
        let word = string_of_chars(&pieces[i]);
        let ghost before = res@.map_values(|h: VagueHit| h@);
        let ghost prev = ps.take(i as int).filter(in_list(vague_words()));
        match vague_lookup(word.as_str()) {
            Some(alts) => {
                res.push(VagueHit { word, position: i, alternatives: alts });
                assert(prev.push(ps[i as int]).map_values(f) =~= prev.map_values(f).push(
                    f(ps[i as int]),
                ));
                assert(res@.map_values(|h: VagueHit| h@) =~= before.push(f(ps[i as int])));
            },
            None => {},
        }
        i = i + 1;
    }
    assert(ps.take(pieces.len() as int) =~= ps);
    res
}

/// The emotion words of `pieces`, with their positions and lexicon information.
fn collect_emotion_hits(pieces: &Vec<Vec<char>>, lexicon: &EmotionLexicon) -> (res: Vec<EmotionHit>)
    ensures
        res@.map_values(|h: EmotionHit| h@) == emotion_hit_infos(
            pieces@.map_values(|w: Vec<char>| w@),
            lexicon.emotions@,
        ),
{
    let ghost words = pieces@.map_values(|w: Vec<char>| w@);
    let ghost ps = positions(words);
    let ghost em = lexicon.emotions@;
    let ghost f = |p: (Seq<char>, int)| (p.0, p.1, em.get(p.0).unwrap());
    let mut res: Vec<EmotionHit> = Vec::new();
    let mut i: usize = 0;
    assert(ps.take(0).filter(in_emotions(em)) =~= Seq::<(Seq<char>, int)>::empty()) by {
        reveal(Seq::filter);
    }
    while i < pieces.len()
        invariant
            0 <= i <= pieces.len(),
            words == pieces@.map_values(|w: Vec<char>| w@),
            ps == positions(words),
            em == lexicon.emotions@,
            f == |p: (Seq<char>, int)| (p.0, p.1, em.get(p.0).unwrap()),
            res@.map_values(|h: EmotionHit| h@) == ps.take(i as int).filter(in_emotions(em)).map_values(f),
        decreases pieces.len() - i,
    {
        proof {
            lemma_filter_take_step(ps, i as int, in_emotions(em));
        }
        assert(ps[i as int] == (pieces@[i as int]@, i as int));
        let word = string_of_chars(&pieces[i]);
        let ghost before = res@.map_values(|h: EmotionHit| h@);
        let ghost prev = ps.take(i as int).filter(in_emotions(em));
        match lexicon.emotions.get(word.as_str()) {
            Some(info) => {
                let info = info.deep_clone();
                res.push(EmotionHit { word, position: i, info });
                assert(prev.push(ps[i as int]).map_values(f) =~= prev.map_values(f).push(
                    f(ps[i as int]),
                ));
                assert(res@.map_values(|h: EmotionHit| h@) =~= before.push(f(ps[i as int])));
            },
            None => {},
        }
        i = i + 1;
    }
    assert(ps.take(pieces.len() as int) =~= ps);
    res
}


/// An improvement suggestion.
pub enum Suggestion {
    /// A vague word, with up to three precise alternatives.
    Vague { original: String, alternatives: Vec<&'static str>, message: String },
    /// Too many filler words.
    Filler { message: String },
    /// Too many hedges.
    Hedge { message: String },
}

/// The value of a [`Suggestion`].
pub enum SuggestionV {
    Vague { original: Seq<char>, alternatives: Seq<Seq<char>>, message: Seq<char> },
    Filler { message: Seq<char> },
    Hedge { message: Seq<char> },
}

impl View for Suggestion {
    type V = SuggestionV;

    open spec fn view(&self) -> SuggestionV {
        match self {
            Suggestion::Vague { original, alternatives, message } => SuggestionV::Vague {
                original: original@,
                alternatives: alternatives@.map_values(|w: &str| w@),
                message: message@,
            },
            Suggestion::Filler { message } => SuggestionV::Filler { message: message@ },
            Suggestion::Hedge { message } => SuggestionV::Hedge { message: message@ },
        }
    }
}

/// The first `n` elements of `s`, or all of them where there are fewer.
pub open spec fn first_n<A>(s: Seq<A>, n: int) -> Seq<A> {
    if s.len() <= n {
        s
    } else {
        s.take(n)
    }
}

/// The distinct elements of `s`, in the order of their first occurrence.
pub open spec fn distinct_in_order(s: Seq<Seq<char>>) -> Seq<Seq<char>>
    decreases s.len(),
{
    if s.len() == 0 {
        Seq::empty()
    } else {
        let seen = distinct_in_order(s.drop_last());
        if seen.contains(s.last()) {
            seen
        } else {
            seen.push(s.last())
        }
    }
}

/// The suggestion for one vague word hit.
pub open spec fn vague_suggestion(h: (Seq<char>, int, Seq<Seq<char>>)) -> SuggestionV {
    let alts = first_n(h.2, 3);
    SuggestionV::Vague {
        original: h.0,
        alternatives: alts,
        message: "「"@ + h.0 + "」→ 试试更精准的："@ + join(alts, "、"@),
    }
}

/// The message about filler words, given their hits.
pub open spec fn filler_message(fillers: Seq<(Seq<char>, int)>) -> Seq<char> {
    let words = fillers.map_values(|p: (Seq<char>, int)| p.0);
    "填充词偏多（"@ + decimal(fillers.len()) + "次）："@ + join(first_n(distinct_in_order(words), 3), "、"@)
        + "。试试用停顿替代"@
}

/// The message about hedges, given their number.
pub open spec fn hedge_message(count: nat) -> Seq<char> {
    "犹豫表达较多（"@ + decimal(count) + "次）。试试把「我觉得」改成直接陈述"@
}

/// The suggestions for a text: one per vague word, then one about fillers
/// when there are at least three, then one about hedges when there are at least two.
pub open spec fn suggestions_for(
    vague: Seq<(Seq<char>, int, Seq<Seq<char>>)>,
    fillers: Seq<(Seq<char>, int)>,
    hedges: Seq<(Seq<char>, int)>,
) -> Seq<SuggestionV> {
    vague.map_values(|h: (Seq<char>, int, Seq<Seq<char>>)| vague_suggestion(h)) + (if fillers.len()
        >= 3 {
        seq![SuggestionV::Filler { message: filler_message(fillers) }]
    } else {
        Seq::empty()
    }) + (if hedges.len() >= 2 {
        seq![SuggestionV::Hedge { message: hedge_message(hedges.len()) }]
    } else {
        Seq::empty()
    })
}

/// Appends the parts of `parts` joined by `sep` to `out`.
fn push_joined(out: &mut Vec<char>, parts: &Vec<Vec<char>>, sep: &str)
    ensures
        final(out)@ == old(out)@ + join(parts@.map_values(|w: Vec<char>| w@), sep@),
{
    let ghost ps = parts@.map_values(|w: Vec<char>| w@);
    let mut i: usize = 0;
    assert(join(ps.take(0), sep@) =~= Seq::<char>::empty());
    assert(out@ =~= old(out)@ + join(ps.take(0), sep@));
    while i < parts.len()
        invariant
            0 <= i <= parts.len(),
            ps == parts@.map_values(|w: Vec<char>| w@),
            out@ == old(out)@ + join(ps.take(i as int), sep@),
        decreases parts.len() - i,
    {
        if i > 0 {
            push_str(out, sep);
        }
        let mut k: usize = 0;
        let ghost mid = out@;
        while k < parts[i].len()
            invariant
                0 <= k <= parts@[i as int].len(),
                i < parts.len(),
                out@ == mid + parts@[i as int]@.take(k as int),
            decreases parts@[i as int].len() - k,
        {
            out.push(parts[i][k]);
            assert(out@ =~= mid + parts@[i as int]@.take(k + 1));
            k = k + 1;
        }
        assert(parts@[i as int]@.take(parts@[i as int]@.len() as int) =~= parts@[i as int]@);
        assert(ps.take(i + 1).drop_last() =~= ps.take(i as int));
        assert(ps.take(i + 1).last() == ps[i as int]);
        if i == 0 {
            assert(join(ps.take(1), sep@) == ps[0]);
        }
        assert(out@ =~= old(out)@ + join(ps.take(i + 1), sep@));
        i = i + 1;
    }
    assert(ps.take(parts.len() as int) =~= ps);
}

/// The first `n` elements of `list`.
fn first_of(list: &Vec<Vec<char>>, n: usize) -> (res: Vec<Vec<char>>)
    ensures
        res@.map_values(|w: Vec<char>| w@) == first_n(list@.map_values(|w: Vec<char>| w@), n as int),
{
    let mut res: Vec<Vec<char>> = Vec::new();
    let mut i: usize = 0;
    while i < list.len() && i < n
        invariant
            0 <= i <= list.len(),
            i <= n,
            res@.len() == i,
            forall|j: int| 0 <= j < i ==> #[trigger] res@[j]@ == list@[j]@,
        decreases list.len() - i,
    {
        let mut w: Vec<char> = Vec::new();
        let mut k: usize = 0;
        while k < list[i].len()
            invariant
                0 <= k <= list@[i as int].len(),
                i < list.len(),
                w@ == list@[i as int]@.take(k as int),
            decreases list@[i as int].len() - k,
        {
            w.push(list[i][k]);
            assert(w@ =~= list@[i as int]@.take(k + 1));
            k = k + 1;
        }
        assert(list@[i as int]@.take(list@[i as int]@.len() as int) =~= list@[i as int]@);
        res.push(w);
        i = i + 1;
    }
    assert(res@.map_values(|w: Vec<char>| w@) =~= first_n(list@.map_values(|w: Vec<char>| w@), n as int));
    res
}

/// The suggestion for one vague word hit.
fn suggest_vague(hit: &VagueHit) -> (res: Suggestion)
    ensures
        res@ == vague_suggestion(hit@),
{
    let alts = list_chars(&hit.alternatives);
    let top = first_of(&alts, 3);
    let mut top_strs: Vec<&'static str> = Vec::new();
    let mut i: usize = 0;
    while i < hit.alternatives.len() && i < 3
        invariant
            0 <= i <= hit.alternatives.len(),
            i <= 3,
            top_strs@.len() == i,
            forall|j: int| 0 <= j < i ==> #[trigger] top_strs@[j] == hit.alternatives@[j],
        decreases hit.alternatives.len() - i,
    {
        top_strs.push(hit.alternatives[i]);
        i = i + 1;
    }
    assert(top_strs@.map_values(|w: &str| w@) =~= first_n(
        hit.alternatives@.map_values(|w: &str| w@),
        3,
    ));
    let mut msg: Vec<char> = Vec::new();
    push_str(&mut msg, "「");
    let wc = chars_of(hit.word.as_str());
    let mut k: usize = 0;
    let ghost mid = msg@;
    while k < wc.len()
        invariant
            0 <= k <= wc.len(),
            msg@ == mid + wc@.take(k as int),
        decreases wc.len() - k,
    {
        msg.push(wc[k]);
        assert(msg@ =~= mid + wc@.take(k + 1));
        k = k + 1;
    }
    assert(wc@.take(wc.len() as int) =~= wc@);
    push_str(&mut msg, "」→ 试试更精准的：");
    push_joined(&mut msg, &top, "、");
    let message = string_of_chars(&msg);
    let original = string_of_chars(&wc);
    assert(msg@ =~= "「"@ + hit.word@ + "」→ 试试更精准的："@ + join(
        first_n(hit.alternatives@.map_values(|w: &str| w@), 3),
        "、"@,
    ));
    Suggestion::Vague { original, alternatives: top_strs, message }
}

/// The distinct words of `hits`, in the order of their first occurrence.
fn distinct_words(hits: &Vec<WordHit>) -> (res: Vec<Vec<char>>)
    ensures
        res@.map_values(|w: Vec<char>| w@) == distinct_in_order(
            hits@.map_values(|h: WordHit| h@).map_values(|p: (Seq<char>, int)| p.0),
        ),
{
    let ghost ws = hits@.map_values(|h: WordHit| h@).map_values(|p: (Seq<char>, int)| p.0);
    let mut res: Vec<Vec<char>> = Vec::new();
    let mut i: usize = 0;
    assert(ws.take(0) =~= Seq::<Seq<char>>::empty());
    while i < hits.len()
        invariant
            0 <= i <= hits.len(),
            ws == hits@.map_values(|h: WordHit| h@).map_values(|p: (Seq<char>, int)| p.0),
            res@.map_values(|w: Vec<char>| w@) == distinct_in_order(ws.take(i as int)),
        decreases hits.len() - i,
    {
        let w = chars_of(hits[i].word.as_str());
        assert(ws.take(i + 1).drop_last() =~= ws.take(i as int));
        assert(ws[i as int] == hits@[i as int].word@);
        if !list_contains(&res, &w) {
            let ghost before = res@.map_values(|w: Vec<char>| w@);
            res.push(w);
            assert(res@.map_values(|w: Vec<char>| w@) =~= before.push(ws[i as int]));
        }
        i = i + 1;
    }
    assert(ws.take(hits.len() as int) =~= ws);
    res
}

/// The improvement suggestions for the hits of a text.
pub fn generate_suggestions(vague: &Vec<VagueHit>, fillers: &Vec<WordHit>, hedges: &Vec<WordHit>) -> (res:
    Vec<Suggestion>)
    ensures
        res@.map_values(|s: Suggestion| s@) == suggestions_for(
            vague@.map_values(|h: VagueHit| h@),
            fillers@.map_values(|h: WordHit| h@),
            hedges@.map_values(|h: WordHit| h@),
        ),
{
    let ghost vv = vague@.map_values(|h: VagueHit| h@);
    let mut out: Vec<Suggestion> = Vec::new();
    let mut i: usize = 0;
    while i < vague.len()
        invariant
            0 <= i <= vague.len(),
            vv == vague@.map_values(|h: VagueHit| h@),
            out@.len() == i,
            forall|j: int| 0 <= j < i ==> #[trigger] out@[j]@ == vague_suggestion(vv[j]),
        decreases vague.len() - i,
    {
        out.push(suggest_vague(&vague[i]));
        i = i + 1;
    }
    let ghost part1 = out@.map_values(|s: Suggestion| s@);
    assert(part1 =~= vv.map_values(|h: (Seq<char>, int, Seq<Seq<char>>)| vague_suggestion(h)));
    let ghost fv = fillers@.map_values(|h: WordHit| h@);
    let ghost hv = hedges@.map_values(|h: WordHit| h@);
    let ghost part2: Seq<SuggestionV> = if fv.len() >= 3 {
        seq![SuggestionV::Filler { message: filler_message(fv) }]
    } else {
        Seq::empty()
    };
    if fillers.len() >= 3 {
        let seen = distinct_words(fillers);
        let top = first_of(&seen, 3);
        let mut msg: Vec<char> = Vec::new();
        push_str(&mut msg, "填充词偏多（");
        push_decimal(&mut msg, fillers.len() as u64);
        push_str(&mut msg, "次）：");
        push_joined(&mut msg, &top, "、");
        push_str(&mut msg, "。试试用停顿替代");
        assert(msg@ =~= filler_message(fv));
        out.push(Suggestion::Filler { message: string_of_chars(&msg) });
    }
    assert(out@.map_values(|s: Suggestion| s@) =~= part1 + part2);
    let ghost part3: Seq<SuggestionV> = if hv.len() >= 2 {
        seq![SuggestionV::Hedge { message: hedge_message(hv.len()) }]
    } else {
        Seq::empty()
    };
    if hedges.len() >= 2 {
        let mut msg: Vec<char> = Vec::new();
        push_str(&mut msg, "犹豫表达较多（");
        push_decimal(&mut msg, hedges.len() as u64);
        push_str(&mut msg, "次）。试试把「我觉得」改成直接陈述");
        assert(msg@ =~= hedge_message(hv.len()));
        out.push(Suggestion::Hedge { message: string_of_chars(&msg) });
    }
    assert(out@.map_values(|s: Suggestion| s@) =~= part1 + part2 + part3);
    out
}


/// The analysis of a transcript.
pub struct Analysis {
    pub total_words: usize,
    pub fillers: Vec<WordHit>,
    pub hedges: Vec<WordHit>,
    pub vague_words: Vec<VagueHit>,
    pub emotion_words: Vec<EmotionHit>,
    pub suggestions: Vec<Suggestion>,
}

impl Analysis {
    /// Whether this is the analysis of a text segmented into `words`, with the
    /// emotion object `emotions`.
    pub open spec fn describes(&self, words: Seq<Seq<char>>, emotions: JsonV) -> bool {
        let fillers = hits_in(words, filler_words());
        let hedges = hits_in(words, hedge_words());
        &&& self.total_words == words.len()
        &&& self.fillers@.map_values(|h: WordHit| h@) == fillers
        &&& self.hedges@.map_values(|h: WordHit| h@) == hedges
        &&& self.vague_words@.map_values(|h: VagueHit| h@) == vague_hits(words)
        &&& self.emotion_words@.map_values(|h: EmotionHit| h@) == emotion_hit_infos(words, emotions)
        &&& self.suggestions@.map_values(|s: Suggestion| s@) == suggestions_for(
            vague_hits(words),
            fillers,
            hedges,
        )
    }

    /// The number of words that are neither fillers nor hedges: the numerator
    /// of the expression density (whose percentage, a floating-point figure,
    /// the caller computes from this count and `total_words`).
    pub fn meaningful_words(&self) -> (res: usize)
        requires
            self.fillers.len() + self.hedges.len() <= self.total_words,
        ensures
            res == self.total_words - self.fillers.len() - self.hedges.len(),
    {
        self.total_words - self.fillers.len() - self.hedges.len()
    }
}

/// Analyses a transcript: `None` for a text that is empty once trimmed;
/// otherwise its word count, its filler, hedge, vague and emotion words with
/// their positions and the suggestions for it. No word is both a filler and a
/// hedge, so the fillers and hedges never outnumber the words.
pub fn analyze_text(text: &str, lexicon: &EmotionLexicon) -> (res: Option<Analysis>)
    ensures
        res is None <==> is_blank(text@),
        res matches Some(a) ==> a.describes(
            segmentation(text@, dictionary(lexicon.words())),
            lexicon.emotions@,
        ),
        res matches Some(a) ==> a.fillers.len() + a.hedges.len() <= a.total_words,
{
    let tc = chars_of(text);
    if blank(&tc) {
        return None;
    }
    let pieces = segment_pieces(text, lexicon);
    let ghost words = pieces@.map_values(|w: Vec<char>| w@);
    let fl = list_chars(&filler_list());
    let hl = list_chars(&hedge_list());
    let fillers = collect_list_hits(&pieces, &fl);
    let hedges = collect_list_hits(&pieces, &hl);
    let vague_words = collect_vague_hits(&pieces);
    let emotion_words = collect_emotion_hits(&pieces, lexicon);
    proof {
        law_fillers_and_hedges_fit(words);
    }
    assert(fillers@.map_values(|h: WordHit| h@).len() == fillers.len());
    assert(hedges@.map_values(|h: WordHit| h@).len() == hedges.len());
    let suggestions = generate_suggestions(&vague_words, &fillers, &hedges);
    Some(
        Analysis {
            total_words: pieces.len(),
            fillers,
            hedges,
            vague_words,
            emotion_words,
            suggestions,
        },
    )
}


/// A JSON number holding `n`.
pub open spec fn count_json(n: int) -> JsonV {
    JsonV::Number(decimal(n as nat))
}

/// The members naming a word and its position.
pub open spec fn word_members(word: Seq<char>, position: int) -> Seq<(Seq<char>, JsonV)> {
    seq![("word"@, JsonV::Str(word)), ("position"@, count_json(position))]
}

/// A found word as JSON: `{word, position}`.
pub open spec fn hit_json(h: (Seq<char>, int)) -> JsonV {
    JsonV::Object(word_members(h.0, h.1))
}

/// A found word as JSON names the word under `word` and its position, in
/// decimal, under `position`.
pub proof fn law_hit_json_members(h: (Seq<char>, int))
    ensures
        hit_json(h).get("word"@) == Some(JsonV::Str(h.0)),
        hit_json(h).get("position"@) == Some(JsonV::Number(decimal(h.1 as nat))),
{
    reveal_strlit("word");
    reveal_strlit("position");
    let f = word_members(h.0, h.1);
    assert(f[0].0 == "word"@);
    assert(f[1].0 == "position"@);
    assert forall|j: int| 0 <= j < 1 implies #[trigger] f[j].0 != "position"@ by {
        assert(f[j].0.len() != 8);
    }
    crate::json::lemma_lookup_index(f, "position"@, 1);
}

/// A list of texts as a JSON array of strings.
pub open spec fn strs_json(ws: Seq<Seq<char>>) -> JsonV {
    JsonV::Array(ws.map_values(|w: Seq<char>| JsonV::Str(w)))
}

/// A vague word as JSON: `{word, position, alternatives}`.
pub open spec fn vague_json(h: (Seq<char>, int, Seq<Seq<char>>)) -> JsonV {
    JsonV::Object(word_members(h.0, h.1).push(("alternatives"@, strs_json(h.2))))
}

/// An emotion word as JSON: `{word, position}` with the members of its
/// lexicon information set over them.
pub open spec fn emotion_json(h: (Seq<char>, int, JsonV)) -> JsonV {
    match h.2 {
        JsonV::Object(info) => JsonV::Object(overlay(word_members(h.0, h.1), info)),
        _ => JsonV::Object(word_members(h.0, h.1)),
    }
}

/// A suggestion as JSON: its `type`, then its fields.
pub open spec fn suggestion_json(s: SuggestionV) -> JsonV {
    match s {
        SuggestionV::Vague { original, alternatives, message } => JsonV::Object(
            seq![
                ("type"@, JsonV::Str("vague"@)),
                ("original"@, JsonV::Str(original)),
                ("alternatives"@, strs_json(alternatives)),
                ("message"@, JsonV::Str(message)),
            ],
        ),
        SuggestionV::Filler { message } => JsonV::Object(
            seq![("type"@, JsonV::Str("filler"@)), ("message"@, JsonV::Str(message))],
        ),
        SuggestionV::Hedge { message } => JsonV::Object(
            seq![("type"@, JsonV::Str("hedge"@)), ("message"@, JsonV::Str(message))],
        ),
    }
}

impl Analysis {
    /// The analysis as the JSON object that the interface reads.
    pub open spec fn json_spec(&self) -> JsonV {
        JsonV::Object(
            seq![
                ("totalWords"@, count_json(self.total_words as int)),
                ("fillers"@, JsonV::Array(self.fillers@.map_values(|h: WordHit| hit_json(h@)))),
                ("hedges"@, JsonV::Array(self.hedges@.map_values(|h: WordHit| hit_json(h@)))),
                ("vagueWords"@, JsonV::Array(self.vague_words@.map_values(|h: VagueHit| vague_json(h@)))),
                ("emotionWords"@, JsonV::Array(self.emotion_words@.map_values(|h: EmotionHit| emotion_json(h@)))),
                ("suggestions"@, JsonV::Array(self.suggestions@.map_values(|s: Suggestion| suggestion_json(s@)))),
            ],
        )
    }

    /// The analysis as JSON holds its word count, in decimal, under
    /// `totalWords`, and its fillers and hedges, in order, under `fillers` and
    /// `hedges`.
    pub proof fn law_json_members(&self)
        ensures
            self.json_spec().get("totalWords"@) == Some(JsonV::Number(decimal(self.total_words as nat))),
            self.json_spec().get("fillers"@) matches Some(JsonV::Array(items)) && items.len()
                == self.fillers.len() && forall|i: int|
                0 <= i < items.len() ==> #[trigger] items[i] == hit_json(self.fillers@[i]@),
            self.json_spec().get("hedges"@) matches Some(JsonV::Array(items)) && items.len()
                == self.hedges.len() && forall|i: int|
                0 <= i < items.len() ==> #[trigger] items[i] == hit_json(self.hedges@[i]@),
    {
        reveal_strlit("totalWords");
        reveal_strlit("fillers");
        reveal_strlit("hedges");
        let f = self.json_spec()->Object_0;
        assert(f[0].0 == "totalWords"@);
        assert(f[1].0 == "fillers"@);
        assert(f[2].0 == "hedges"@);
        assert forall|j: int| 0 <= j < 1 implies #[trigger] f[j].0 != "fillers"@ by {}
        crate::json::lemma_lookup_index(f, "fillers"@, 1);
        assert forall|j: int| 0 <= j < 2 implies #[trigger] f[j].0 != "hedges"@ by {
            assert(f[j].0.len() != 6);
        }
        crate::json::lemma_lookup_index(f, "hedges"@, 2);
    }

    /// The analysis as the JSON object that the interface reads.
    pub fn to_json(&self) -> (res: Json)
        ensures
            res@ == self.json_spec(),
    {
        let mut fillers: Vec<Json> = Vec::new();
        let mut i: usize = 0;
        while i < self.fillers.len()
            invariant
                0 <= i <= self.fillers.len(),
                fillers@.len() == i,
                forall|j: int| 0 <= j < i ==> #[trigger] fillers@[j]@ == hit_json(self.fillers@[j]@),
            decreases self.fillers.len() - i,
        {
            fillers.push(word_hit_json(&self.fillers[i]));
            i = i + 1;
        }
        let mut hedges: Vec<Json> = Vec::new();
        let mut i: usize = 0;
        while i < self.hedges.len()
            invariant
                0 <= i <= self.hedges.len(),
                hedges@.len() == i,
                forall|j: int| 0 <= j < i ==> #[trigger] hedges@[j]@ == hit_json(self.hedges@[j]@),
            decreases self.hedges.len() - i,
        {
            hedges.push(word_hit_json(&self.hedges[i]));
            i = i + 1;
        }
        let mut vague: Vec<Json> = Vec::new();
        let mut i: usize = 0;
        while i < self.vague_words.len()
            invariant
                0 <= i <= self.vague_words.len(),
                vague@.len() == i,
                forall|j: int| 0 <= j < i ==> #[trigger] vague@[j]@ == vague_json(self.vague_words@[j]@),
            decreases self.vague_words.len() - i,
        {
            vague.push(vague_hit_json(&self.vague_words[i]));
            i = i + 1;
        }
        let mut emotions: Vec<Json> = Vec::new();
        let mut i: usize = 0;
        while i < self.emotion_words.len()
            invariant
                0 <= i <= self.emotion_words.len(),
                emotions@.len() == i,
                forall|j: int| 0 <= j < i ==> #[trigger] emotions@[j]@ == emotion_json(self.emotion_words@[j]@),
            decreases self.emotion_words.len() - i,
        {
            emotions.push(emotion_hit_json(&self.emotion_words[i]));
            i = i + 1;
        }
        let mut suggestions: Vec<Json> = Vec::new();
        let mut i: usize = 0;
        while i < self.suggestions.len()
            invariant
                0 <= i <= self.suggestions.len(),
                suggestions@.len() == i,
                forall|j: int| 0 <= j < i ==> #[trigger] suggestions@[j]@ == suggestion_json(self.suggestions@[j]@),
            decreases self.suggestions.len() - i,
        {
            suggestions.push(suggestion_to_json(&self.suggestions[i]));
            i = i + 1;
        }
        let fa = Json::array(fillers);
        let ha = Json::array(hedges);
        let va = Json::array(vague);
        let ea = Json::array(emotions);
        let sa = Json::array(suggestions);
        assert(items_view(fillers@) =~= self.fillers@.map_values(|h: WordHit| hit_json(h@)));
        assert(items_view(hedges@) =~= self.hedges@.map_values(|h: WordHit| hit_json(h@)));
        assert(items_view(vague@) =~= self.vague_words@.map_values(|h: VagueHit| vague_json(h@)));
        assert(items_view(emotions@) =~= self.emotion_words@.map_values(|h: EmotionHit| emotion_json(h@)));
        assert(items_view(suggestions@) =~= self.suggestions@.map_values(|s: Suggestion| suggestion_json(s@)));
        let fields = vec![
            ("totalWords".to_owned(), count_number(self.total_words as u64)),
            ("fillers".to_owned(), fa),
            ("hedges".to_owned(), ha),
            ("vagueWords".to_owned(), va),
            ("emotionWords".to_owned(), ea),
            ("suggestions".to_owned(), sa),
        ];
        let res = Json::object(fields);
        assert(members_view(fields@) =~= self.json_spec()->Object_0);
        res
    }
}

/// A JSON number holding `n`.
fn count_number(n: u64) -> (res: Json)
    ensures
        res@ == count_json(n as int),
{
    let mut d: Vec<char> = Vec::new();
    push_decimal(&mut d, n);
    assert(d@ =~= decimal(n as nat));
    Json::Number(string_of_chars(&d))
}

/// The members naming a word and its position.
fn word_member_list(word: &String, position: usize) -> (res: Vec<(String, Json)>)
    ensures
        members_view(res@) == word_members(word@, position as int),
{
    let res = vec![
        ("word".to_owned(), Json::Str(word.clone())),
        ("position".to_owned(), count_number(position as u64)),
    ];
    proof {
        lemma_members_view(res@);
    }
    assert(members_view(res@) =~= word_members(word@, position as int));
    res
}

fn word_hit_json(h: &WordHit) -> (res: Json)
    ensures
        res@ == hit_json(h@),
{
    Json::Object(word_member_list(&h.word, h.position))
}

/// A list of texts as a JSON array of strings.
fn strs_to_json(ws: &Vec<&'static str>) -> (res: Json)
    ensures
        res@ == strs_json(ws@.map_values(|w: &str| w@)),
{
    let mut items: Vec<Json> = Vec::new();
    let mut i: usize = 0;
    while i < ws.len()
        invariant
            0 <= i <= ws.len(),
            items@.len() == i,
            forall|j: int| 0 <= j < i ==> #[trigger] items@[j]@ == JsonV::Str(ws@[j]@),
        decreases ws.len() - i,
    {
        items.push(Json::str_value(ws[i]));
        i = i + 1;
    }
    let res = Json::array(items);
    assert(items_view(items@) =~= ws@.map_values(|w: &str| w@).map_values(|w: Seq<char>| JsonV::Str(w)));
    res
}

fn vague_hit_json(h: &VagueHit) -> (res: Json)
    ensures
        res@ == vague_json(h@),
{
    let mut fields = word_member_list(&h.word, h.position);
    let ghost before = fields@;
    fields.push(("alternatives".to_owned(), strs_to_json(&h.alternatives)));
    proof {
        lemma_members_view(fields@);
        lemma_members_view(before);
    }
    assert(members_view(fields@) =~= members_view(before).push(
        ("alternatives"@, strs_json(h.alternatives@.map_values(|w: &str| w@))),
    ));
    Json::Object(fields)
}

fn emotion_hit_json(h: &EmotionHit) -> (res: Json)
    ensures
        res@ == emotion_json(h@),
{
    let mut fields = word_member_list(&h.word, h.position);
    match &h.info {
        Json::Object(info) => {
            overlay_members(&mut fields, info);
        },
        _ => {},
    }
    Json::Object(fields)
}

fn suggestion_to_json(s: &Suggestion) -> (res: Json)
    ensures
        res@ == suggestion_json(s@),
{
    match s {
        Suggestion::Vague { original, alternatives, message } => {
            let fields = vec![
                ("type".to_owned(), Json::str_value("vague")),
                ("original".to_owned(), Json::Str(original.clone())),
                ("alternatives".to_owned(), strs_to_json(alternatives)),
                ("message".to_owned(), Json::Str(message.clone())),
            ];
            let res = Json::object(fields);
            assert(members_view(fields@) =~= suggestion_json(s@)->Object_0);
            res
        },
        Suggestion::Filler { message } => {
            let fields = vec![
                ("type".to_owned(), Json::str_value("filler")),
                ("message".to_owned(), Json::Str(message.clone())),
            ];
            let res = Json::object(fields);
            assert(members_view(fields@) =~= suggestion_json(s@)->Object_0);
            res
        },
        Suggestion::Hedge { message } => {
            let fields = vec![
                ("type".to_owned(), Json::str_value("hedge")),
                ("message".to_owned(), Json::Str(message.clone())),
            ];
            let res = Json::object(fields);
            assert(members_view(fields@) =~= suggestion_json(s@)->Object_0);
            res
        },
    }
}


/// The hits of a list are exactly the words of the text that occur in the
/// list, each with its position.
pub proof fn law_hits_are_listed_words(words: Seq<Seq<char>>, list: Seq<Seq<char>>, h: (Seq<char>, int))
    ensures
        hits_in(words, list).contains(h) <==> (0 <= h.1 < words.len() && words[h.1] == h.0
            && list.contains(h.0)),
{
    let ps = positions(words);
    if hits_in(words, list).contains(h) {
        ps.lemma_filter_contains_rev(in_list(list), h);
        let k = choose|k: int| 0 <= k < ps.len() && ps[k] == h;
        let i = choose|i: int| 0 <= i < hits_in(words, list).len() && hits_in(words, list)[i] == h;
        ps.lemma_filter_pred(in_list(list), i);
    }
    if 0 <= h.1 < words.len() && words[h.1] == h.0 && list.contains(h.0) {
        assert(ps[h.1] == h);
        ps.lemma_filter_contains(in_list(list), h.1);
    }
}

/// Where a table has an entry for `word`, it is that of the first row with
/// that key.
proof fn lemma_table_lookup_row(rows: Seq<(Seq<char>, Seq<Seq<char>>)>, word: Seq<char>) -> (k: int)
    requires
        table_lookup(rows, word) is Some,
    ensures
        0 <= k < rows.len(),
        rows[k].0 == word,
        table_lookup(rows, word) == Some(rows[k].1),
        forall|j: int| 0 <= j < k ==> #[trigger] rows[j].0 != word,
    decreases rows.len(),
{
    if rows[0].0 == word {
        0
    } else {
        let k = lemma_table_lookup_row(rows.drop_first(), word);
        assert forall|j: int| 0 <= j < k + 1 implies #[trigger] rows[j].0 != word by {
            if j > 0 {
                assert(rows[j] == rows.drop_first()[j - 1]);
            }
        }
        k + 1
    }
}

/// The vague hits are the words of the text that are vague words, in order
/// and with their positions, each with the alternatives of the first row of
/// the vague-word table that has that word.
pub proof fn law_vague_hits_use_table(words: Seq<Seq<char>>)
    ensures
        vague_hits(words).len() == hits_in(words, vague_words()).len(),
        forall|i: int|
            0 <= i < vague_hits(words).len() ==> {
                let h = #[trigger] vague_hits(words)[i];
                &&& (h.0, h.1) == hits_in(words, vague_words())[i]
                &&& exists|k: int|
                    0 <= k < vague_table().len() && #[trigger] vague_table()[k].0 == h.0 && h.2
                        == vague_table()[k].1 && forall|j: int|
                        0 <= j < k ==> #[trigger] vague_table()[j].0 != h.0
            },
{
    let hs = hits_in(words, vague_words());
    let rows = vague_table();
    assert forall|i: int| 0 <= i < vague_hits(words).len() implies {
        let h = #[trigger] vague_hits(words)[i];
        &&& (h.0, h.1) == hs[i]
        &&& exists|k: int|
            0 <= k < rows.len() && #[trigger] rows[k].0 == h.0 && h.2 == rows[k].1 && forall|j: int|
                0 <= j < k ==> #[trigger] rows[j].0 != h.0
    } by {
        positions(words).lemma_filter_pred(in_list(vague_words()), i);
        assert(vague_words().contains(hs[i].0));
        lemma_table_lookup_contains(rows, hs[i].0);
        let k = lemma_table_lookup_row(rows, hs[i].0);
        assert(rows[k].0 == hs[i].0);
    }
}

/// The emotion hits carry, for each emotion word of the text (in order, with
/// its position), the information that the lexicon records for that word.
pub proof fn law_emotion_hits_carry_lexicon_info(words: Seq<Seq<char>>, emotions: JsonV)
    ensures
        emotion_hit_infos(words, emotions).len() == emotion_hits(words, emotions).len(),
        forall|i: int|
            0 <= i < emotion_hit_infos(words, emotions).len() ==> {
                let h = #[trigger] emotion_hit_infos(words, emotions)[i];
                &&& (h.0, h.1) == emotion_hits(words, emotions)[i]
                &&& emotions.get(h.0) == Some(h.2)
            },
{
    let hs = emotion_hits(words, emotions);
    assert forall|i: int| 0 <= i < emotion_hit_infos(words, emotions).len() implies {
        let h = #[trigger] emotion_hit_infos(words, emotions)[i];
        &&& (h.0, h.1) == hs[i]
        &&& emotions.get(h.0) == Some(h.2)
    } by {
        positions(words).lemma_filter_pred(in_emotions(emotions), i);
    }
}

/// The suggestions for a text: first one for each vague word, in order,
/// naming that word and offering at most its first three alternatives; then
/// one about fillers exactly when there are at least three fillers; then one
/// about hedges exactly when there are at least two hedges.
pub proof fn law_suggestions_shape(
    vague: Seq<(Seq<char>, int, Seq<Seq<char>>)>,
    fillers: Seq<(Seq<char>, int)>,
    hedges: Seq<(Seq<char>, int)>,
)
    ensures
        suggestions_for(vague, fillers, hedges).len() == vague.len() + (if fillers.len() >= 3 {
            1int
        } else {
            0int
        }) + (if hedges.len() >= 2 {
            1int
        } else {
            0int
        }),
        forall|i: int|
            0 <= i < vague.len() ==> (#[trigger] suggestions_for(vague, fillers, hedges)[i] matches SuggestionV::Vague {
                original,
                alternatives,
                ..
            } && original == vague[i].0 && alternatives.len() <= 3 && alternatives.len() <= vague[i].2.len()
                && (alternatives.len() == 3 || alternatives.len() == vague[i].2.len())
                && alternatives == vague[i].2.take(alternatives.len() as int)),
        fillers.len() >= 3 ==> suggestions_for(vague, fillers, hedges)[vague.len() as int] is Filler,
        hedges.len() >= 2 ==> suggestions_for(vague, fillers, hedges).last() is Hedge,
        fillers.len() < 3 && hedges.len() < 2 ==> suggestions_for(vague, fillers, hedges).len()
            == vague.len(),
{
    let r = suggestions_for(vague, fillers, hedges);
    let vs = vague.map_values(|h: (Seq<char>, int, Seq<Seq<char>>)| vague_suggestion(h));
    assert forall|i: int| 0 <= i < vague.len() implies (#[trigger] r[i] matches SuggestionV::Vague {
        original,
        alternatives,
        ..
    } && original == vague[i].0 && alternatives.len() <= 3 && alternatives.len() <= vague[i].2.len()
        && (alternatives.len() == 3 || alternatives.len() == vague[i].2.len())
        && alternatives == vague[i].2.take(alternatives.len() as int)) by {
        assert(r[i] == vs[i]);
        let a = first_n(vague[i].2, 3);
        if vague[i].2.len() <= 3 {
            assert(vague[i].2.take(vague[i].2.len() as int) =~= vague[i].2);
        }
        assert(a == vague[i].2.take(a.len() as int));
    }
}

/// The distinct words listed in a filler message: each word of `s` once, and
/// nothing else.
pub proof fn law_distinct_in_order(s: Seq<Seq<char>>)
    ensures
        forall|w: Seq<char>| #[trigger] distinct_in_order(s).contains(w) <==> s.contains(w),
        forall|i: int, j: int|
            0 <= i < j < distinct_in_order(s).len() ==> #[trigger] distinct_in_order(s)[i]
                != #[trigger] distinct_in_order(s)[j],
    decreases s.len(),
{
    if s.len() > 0 {
        let d = s.drop_last();
        law_distinct_in_order(d);
        let seen = distinct_in_order(d);
        assert forall|w: Seq<char>| #[trigger] distinct_in_order(s).contains(w) <==> s.contains(w) by {
            if s.contains(w) {
                let k = choose|k: int| 0 <= k < s.len() && s[k] == w;
                if k < s.len() - 1 {
                    assert(d[k] == w);
                    assert(d.contains(w));
                }
            }
            if d.contains(w) {
                let k = choose|k: int| 0 <= k < d.len() && d[k] == w;
                assert(s[k] == w);
            }
            if !seen.contains(s.last()) {
                assert(seen.push(s.last()).contains(w) <==> (seen.contains(w) || w == s.last())) by {
                    if seen.push(s.last()).contains(w) {
                        let k = choose|k: int| 0 <= k < seen.len() + 1 && seen.push(s.last())[k] == w;
                        if k < seen.len() {
                            assert(seen[k] == w);
                        }
                    }
                    if seen.contains(w) {
                        let k = choose|k: int| 0 <= k < seen.len() && seen[k] == w;
                        assert(seen.push(s.last())[k] == w);
                    }
                    if w == s.last() {
                        assert(seen.push(s.last())[seen.len() as int] == w);
                    }
                }
            }
        }
        if !seen.contains(s.last()) {
            let r = seen.push(s.last());
            assert forall|i: int, j: int| 0 <= i < j < r.len() implies #[trigger] r[i] != #[trigger] r[j] by {
                if j == seen.len() {
                    assert(r[i] == seen[i]);
                    assert(seen.contains(seen[i]));
                } else {
                    assert(r[i] == seen[i] && r[j] == seen[j]);
                }
            }
        }
    }
}

/// Filtering a sequence of positioned words whose positions increase keeps
/// the positions increasing.
proof fn lemma_filter_keeps_positions_increasing(
    s: Seq<(Seq<char>, int)>,
    pred: spec_fn((Seq<char>, int)) -> bool,
)
    requires
        forall|i: int, j: int| 0 <= i < j < s.len() ==> #[trigger] s[i].1 < #[trigger] s[j].1,
    ensures
        forall|i: int, j: int|
            0 <= i < j < s.filter(pred).len() ==> #[trigger] s.filter(pred)[i].1 < #[trigger] s.filter(
                pred,
            )[j].1,
    decreases s.len(),
{
    reveal(Seq::filter);
    if s.len() > 0 {
        let d = s.drop_last();
        lemma_filter_keeps_positions_increasing(d, pred);
        let fd = d.filter(pred);
        assert forall|i: int| 0 <= i < fd.len() implies #[trigger] fd[i].1 < s.last().1 by {
            assert(fd.contains(fd[i]));
            d.lemma_filter_contains_rev(pred, fd[i]);
            let k = choose|k: int| 0 <= k < d.len() && d[k] == fd[i];
            assert(s[k] == d[k]);
        }
    }
}

/// The hits of a list, and the emotion hits, come in the order of the text:
/// their positions strictly increase. With `law_hits_are_listed_words` this
/// fixes the hits exactly: every listed word of the text, once, in order.
pub proof fn law_hits_in_text_order(words: Seq<Seq<char>>, list: Seq<Seq<char>>, emotions: JsonV)
    ensures
        forall|i: int, j: int|
            0 <= i < j < hits_in(words, list).len() ==> #[trigger] hits_in(words, list)[i].1
                < #[trigger] hits_in(words, list)[j].1,
        forall|i: int, j: int|
            0 <= i < j < emotion_hits(words, emotions).len() ==> #[trigger] emotion_hits(
                words,
                emotions,
            )[i].1 < #[trigger] emotion_hits(words, emotions)[j].1,
        forall|h: (Seq<char>, int)|
            #[trigger] emotion_hits(words, emotions).contains(h) <==> (0 <= h.1 < words.len()
                && words[h.1] == h.0 && emotions.get(h.0) is Some),
{
    let ps = positions(words);
    lemma_filter_keeps_positions_increasing(ps, in_list(list));
    lemma_filter_keeps_positions_increasing(ps, in_emotions(emotions));
    assert forall|h: (Seq<char>, int)|
        #[trigger] emotion_hits(words, emotions).contains(h) <==> (0 <= h.1 < words.len()
            && words[h.1] == h.0 && emotions.get(h.0) is Some) by {
        if emotion_hits(words, emotions).contains(h) {
            ps.lemma_filter_contains_rev(in_emotions(emotions), h);
            let i = choose|i: int|
                0 <= i < emotion_hits(words, emotions).len() && emotion_hits(words, emotions)[i] == h;
            ps.lemma_filter_pred(in_emotions(emotions), i);
        }
        if 0 <= h.1 < words.len() && words[h.1] == h.0 && emotions.get(h.0) is Some {
            assert(ps[h.1] == h);
            ps.lemma_filter_contains(in_emotions(emotions), h.1);
        }
    }
}

/// No word is both a filler and a hedge.
proof fn lemma_fillers_hedges_disjoint(w: Seq<char>)
    ensures
        !(filler_words().contains(w) && hedge_words().contains(w)),
{
    reveal_strlit("嗯");
    reveal_strlit("啊");
    reveal_strlit("呃");
    reveal_strlit("额");
    reveal_strlit("那个");
    reveal_strlit("就是");
    reveal_strlit("然后");
    reveal_strlit("这个");
    reveal_strlit("对吧");
    reveal_strlit("是吧");
    reveal_strlit("你知道");
    reveal_strlit("怎么说呢");
    reveal_strlit("反正");
    reveal_strlit("基本上");
    reveal_strlit("总之");
    reveal_strlit("所以说");
    reveal_strlit("可能");
    reveal_strlit("也许");
    reveal_strlit("大概");
    reveal_strlit("应该");
    reveal_strlit("我觉得");
    reveal_strlit("好像");
    reveal_strlit("似乎");
    reveal_strlit("或许");
    reveal_strlit("不一定");
    reveal_strlit("差不多");
    reveal_strlit("算是");
    reveal_strlit("某种程度上");
    reveal_strlit("一般来说");
    reveal_strlit("感觉");
    let f = filler_words();
    let h = hedge_words();
    if f.contains(w) && h.contains(w) {
        let i = choose|i: int| 0 <= i < f.len() && f[i] == w;
        let j = choose|j: int| 0 <= j < h.len() && h[j] == w;
        assert(f[i][0] == h[j][0]);
        assert(false);
    }
}

/// Filtering by two predicates that never both hold keeps no more elements
/// than the sequence has.
proof fn lemma_disjoint_filters<A>(s: Seq<A>, p: spec_fn(A) -> bool, q: spec_fn(A) -> bool)
    requires
        forall|x: A| !(#[trigger] p(x) && q(x)),
    ensures
        s.filter(p).len() + s.filter(q).len() <= s.len(),
    decreases s.len(),
{
    reveal(Seq::filter);
    if s.len() > 0 {
        lemma_disjoint_filters(s.drop_last(), p, q);
    }
}

/// No word is both a filler and a hedge, so a text's fillers and hedges
/// together never outnumber its words.
pub proof fn law_fillers_and_hedges_fit(words: Seq<Seq<char>>)
    ensures
        hits_in(words, filler_words()).len() + hits_in(words, hedge_words()).len() <= words.len(),
{
    assert forall|x: (Seq<char>, int)| !(#[trigger] in_list(filler_words())(x) && in_list(hedge_words())(x)) by {
        lemma_fillers_hedges_disjoint(x.0);
    }
    lemma_disjoint_filters(positions(words), in_list(filler_words()), in_list(hedge_words()));
}

} // verus!
