//! Keyword classification of what a user says while an agent is working.
//! No model is involved: the text is normalized and matched against fixed
//! keyword lists, in a fixed order of precedence.
use vstd::prelude::*;
use vstd::utf8::encode_utf8;
use crate::text::{contains, contains_seq, trim, trimmed};

verus! {

/// What an interjection asks of the running agent.
#[derive(Debug, Clone, Copy, PartialEq, Eq, Structural)]
pub enum InterruptionIntent {
    /// Stop what is being done.
    Stop,
    /// The direction is wrong.
    Redirect,
    /// A constraint on how the work is done.
    Constraint,
    /// A correction of what may be touched.
    ApprovalCorrection,
    /// A question about progress.
    ProgressAsk,
    /// Go on.
    Continue,
    /// Anything else.
    Other,
}

pub open spec fn words_view(v: Seq<&str>) -> Seq<Seq<char>> {
    v.map_values(|w: &str| w@)
}

/// The text contains one of the keywords.
pub open spec fn mentions(t: Seq<char>, kws: Seq<Seq<char>>) -> bool {
    exists|k: int| 0 <= k < kws.len() && contains_seq(t, #[trigger] kws[k])
}

pub open spec fn stop_words() -> Seq<Seq<char>> {
    seq!["停"@, "停止"@, "停下"@, "别继续"@, "先到这里"@, "不要再做了"@, "stop"@, "cancel"@, "halt"@, "abort"@, "别说了"@, "别讲了"@, "够了"@]
}

pub open spec fn short_stop_words() -> Seq<Seq<char>> {
    seq!["停"@, "不"@]
}

pub open spec fn continue_words() -> Seq<Seq<char>> {
    seq!["继续"@, "接着来"@, "继续吧"@, "接着说"@, "接着讲"@, "请继续"@, "continue"@, "go on"@, "carry on"@, "resume"@, "proceed"@]
}

pub open spec fn progress_words() -> Seq<Seq<char>> {
    seq!["做到哪"@, "查到哪"@, "到什么"@, "进度"@, "进展"@, "怎么样了"@, "什么情况"@, "status"@, "progress"@, "where are you"@, "how far"@, "完成多少"@]
}

pub open spec fn redirect_words() -> Seq<Seq<char>> {
    seq!["不是这个意思"@, "换个方向"@, "你理解错了"@, "不对"@, "不是这样"@, "方向不对"@, "换个思路"@, "先别写代码"@, "先讲方案"@, "先不说"@, "另一个方向"@, "换一个"@, "换种方式"@, "换个角度"@]
}

pub open spec fn constraint_words() -> Seq<Seq<char>> {
    seq!["不要用"@, "不能用"@, "必须"@, "不允许"@, "禁止"@, "别用"@, "限制"@, "约束"@, "条件"@, "注意"@, "要求"@, "改成"@, "改为"@, "改用"@, "用不了"@, "不支持"@]
}

pub open spec fn approval_words() -> Seq<Seq<char>> {
    seq!["不能改"@, "不能写"@, "只能读"@, "不可以"@, "不允许改"@, "这个文件"@, "那个文件"@, "不能动"@, "只允许"@, "不能删除"@, "不能修改"@]
}

/// The intent of a normalized text: the first list it mentions, in order of
/// precedence; a very short text counts as a stop on the short list too.
pub open spec fn intent_of(t: Seq<char>) -> InterruptionIntent {
    if mentions(t, stop_words()) || ((encode_utf8(t).len() as usize) <= 2 && mentions(t, short_stop_words())) {
        InterruptionIntent::Stop
    } else if mentions(t, continue_words()) {
        InterruptionIntent::Continue
    } else if mentions(t, progress_words()) {
        InterruptionIntent::ProgressAsk
    } else if mentions(t, redirect_words()) {
        InterruptionIntent::Redirect
    } else if mentions(t, constraint_words()) {
        InterruptionIntent::Constraint
    } else if mentions(t, approval_words()) {
        InterruptionIntent::ApprovalCorrection
    } else {
        InterruptionIntent::Other
    }
}

/// What `str::to_lowercase` returns for a text.
pub uninterp spec fn lowercase(s: Seq<char>) -> Seq<char>;

/// `str::to_lowercase`: the text with every character mapped to its
/// lowercase form by the Unicode tables. The contract names the result
/// and claims only that it depends on the text alone.
#[verifier::external_body]
pub(crate) fn to_lowercase(s: &str) -> (r: String)
    ensures
        r@ == lowercase(s@),
{
    s.to_lowercase()
}

/// Whether the text contains any of the keywords.
pub fn matches_keywords(text: &str, keywords: &Vec<&str>) -> (b: bool)
    ensures
        b == mentions(text@, words_view(keywords@)),
{
    let mut i: usize = 0;
    while i < keywords.len()
        invariant
            i <= keywords@.len(),
            forall|k: int| 0 <= k < i ==> !contains_seq(text@, #[trigger] words_view(keywords@)[k]),
        decreases keywords.len() - i,
    {
        if contains(text, keywords[i]) {
            proof {
                assert(contains_seq(text@, words_view(keywords@)[i as int]));
            }
            return true;
        }
        i += 1;
    }
    false
}

fn stop_words_list() -> (v: Vec<&'static str>)
    ensures
        words_view(v@) == stop_words(),
{
    let v: Vec<&'static str> = vec!["停", "停止", "停下", "别继续", "先到这里", "不要再做了", "stop", "cancel", "halt", "abort", "别说了", "别讲了", "够了"];
    proof {
        assert(words_view(v@) =~= stop_words());
    }
    v
}

fn short_stop_words_list() -> (v: Vec<&'static str>)
    ensures
        words_view(v@) == short_stop_words(),
{
    let v: Vec<&'static str> = vec!["停", "不"];
    proof {
        assert(words_view(v@) =~= short_stop_words());
    }
    v
}

fn continue_words_list() -> (v: Vec<&'static str>)
    ensures
        words_view(v@) == continue_words(),
{
    let v: Vec<&'static str> = vec!["继续", "接着来", "继续吧", "接着说", "接着讲", "请继续", "continue", "go on", "carry on", "resume", "proceed"];
    proof {
        assert(words_view(v@) =~= continue_words());
    }
    v
}

fn progress_words_list() -> (v: Vec<&'static str>)
    ensures
        words_view(v@) == progress_words(),
{
    let v: Vec<&'static str> = vec!["做到哪", "查到哪", "到什么", "进度", "进展", "怎么样了", "什么情况", "status", "progress", "where are you", "how far", "完成多少"];
    proof {
        assert(words_view(v@) =~= progress_words());
    }
    v
}

fn redirect_words_list() -> (v: Vec<&'static str>)
    ensures
        words_view(v@) == redirect_words(),
{
    let v: Vec<&'static str> = vec!["不是这个意思", "换个方向", "你理解错了", "不对", "不是这样", "方向不对", "换个思路", "先别写代码", "先讲方案", "先不说", "另一个方向", "换一个", "换种方式", "换个角度"];
    proof {
        assert(words_view(v@) =~= redirect_words());
    }
    v
}

fn constraint_words_list() -> (v: Vec<&'static str>)
    ensures
        words_view(v@) == constraint_words(),
{
    let v: Vec<&'static str> = vec!["不要用", "不能用", "必须", "不允许", "禁止", "别用", "限制", "约束", "条件", "注意", "要求", "改成", "改为", "改用", "用不了", "不支持"];
    proof {
        assert(words_view(v@) =~= constraint_words());
    }
    v
}

fn approval_words_list() -> (v: Vec<&'static str>)
    ensures
        words_view(v@) == approval_words(),
{
    let v: Vec<&'static str> = vec!["不能改", "不能写", "只能读", "不可以", "不允许改", "这个文件", "那个文件", "不能动", "只允许", "不能删除", "不能修改"];
    proof {
        assert(words_view(v@) =~= approval_words());
    }
    v
}

/// Classifies a text that is already trimmed and lowercased.
pub fn classify_normalized(t: &str) -> (r: InterruptionIntent)
    ensures
        r == intent_of(t@),
{
    if matches_keywords(t, &stop_words_list()) || (t.len() <= 2 && matches_keywords(t, &short_stop_words_list())) {
        return InterruptionIntent::Stop;
    }
    if matches_keywords(t, &continue_words_list()) {
        return InterruptionIntent::Continue;
    }
    if matches_keywords(t, &progress_words_list()) {
        return InterruptionIntent::ProgressAsk;
    }
    if matches_keywords(t, &redirect_words_list()) {
        return InterruptionIntent::Redirect;
    }
    if matches_keywords(t, &constraint_words_list()) {
        return InterruptionIntent::Constraint;
    }
    if matches_keywords(t, &approval_words_list()) {
        return InterruptionIntent::ApprovalCorrection;
    }
    InterruptionIntent::Other
}

/// Classifying ignores surrounding whitespace: the trimmed text is
/// classified as the text itself is.
pub proof fn law_intent_ignores_surrounding_whitespace(s: Seq<char>)
    ensures
        intent_of(lowercase(trimmed(trimmed(s)))) == intent_of(lowercase(trimmed(s))),
{
    crate::text::law_trim_idempotent(s);
}

/// Every stop keyword stops the agent: a normalized text that contains
/// any of 停, 停止, 停下, 别继续, 先到这里, 不要再做了, stop, cancel, halt,
/// abort, 别说了, 别讲了 or 够了 is a stop, whatever else it says.
pub proof fn law_stop_keywords_stop(t: Seq<char>)
    requires
        contains_seq(t, "停"@) || contains_seq(t, "停止"@) || contains_seq(t, "停下"@) || contains_seq(t, "别继续"@)
            || contains_seq(t, "先到这里"@) || contains_seq(t, "不要再做了"@) || contains_seq(t, "stop"@)
            || contains_seq(t, "cancel"@) || contains_seq(t, "halt"@) || contains_seq(t, "abort"@)
            || contains_seq(t, "别说了"@) || contains_seq(t, "别讲了"@) || contains_seq(t, "够了"@),
    ensures
        intent_of(t) == InterruptionIntent::Stop,
{
    let w = stop_words();
    if contains_seq(t, "停"@) {
        assert(contains_seq(t, w[0]));
    } else if contains_seq(t, "停止"@) {
        assert(contains_seq(t, w[1]));
    } else if contains_seq(t, "停下"@) {
        assert(contains_seq(t, w[2]));
    } else if contains_seq(t, "别继续"@) {
        assert(contains_seq(t, w[3]));
    } else if contains_seq(t, "先到这里"@) {
        assert(contains_seq(t, w[4]));
    } else if contains_seq(t, "不要再做了"@) {
        assert(contains_seq(t, w[5]));
    } else if contains_seq(t, "stop"@) {
        assert(contains_seq(t, w[6]));
    } else if contains_seq(t, "cancel"@) {
        assert(contains_seq(t, w[7]));
    } else if contains_seq(t, "halt"@) {
        assert(contains_seq(t, w[8]));
    } else if contains_seq(t, "abort"@) {
        assert(contains_seq(t, w[9]));
    } else if contains_seq(t, "别说了"@) {
        assert(contains_seq(t, w[10]));
    } else if contains_seq(t, "别讲了"@) {
        assert(contains_seq(t, w[11]));
    } else {
        assert(contains_seq(t, w[12]));
    }
}

/// A text that asks the agent to go on when it holds one of 继续, 接着来, 继续吧, 接着说,
/// 接着讲, 请继续, continue, go on, carry on, resume, proceed and no keyword of a
/// list that takes precedence.
pub proof fn law_continue_keywords(t: Seq<char>)
    requires
        !mentions(t, stop_words()),
        !((encode_utf8(t).len() as usize) <= 2 && mentions(t, short_stop_words())),
        contains_seq(t, "继续"@) || contains_seq(t, "接着来"@) || contains_seq(t, "继续吧"@)
            || contains_seq(t, "接着说"@) || contains_seq(t, "接着讲"@) || contains_seq(t, "请继续"@)
            || contains_seq(t, "continue"@) || contains_seq(t, "go on"@) || contains_seq(t, "carry on"@)
            || contains_seq(t, "resume"@) || contains_seq(t, "proceed"@),
    ensures
        intent_of(t) == InterruptionIntent::Continue,
{
    let w = continue_words();
    if contains_seq(t, "继续"@) {
        assert(contains_seq(t, w[0]));
    } else if contains_seq(t, "接着来"@) {
        assert(contains_seq(t, w[1]));
    } else if contains_seq(t, "继续吧"@) {
        assert(contains_seq(t, w[2]));
    } else if contains_seq(t, "接着说"@) {
        assert(contains_seq(t, w[3]));
    } else if contains_seq(t, "接着讲"@) {
        assert(contains_seq(t, w[4]));
    } else if contains_seq(t, "请继续"@) {
        assert(contains_seq(t, w[5]));
    } else if contains_seq(t, "continue"@) {
        assert(contains_seq(t, w[6]));
    } else if contains_seq(t, "go on"@) {
        assert(contains_seq(t, w[7]));
    } else if contains_seq(t, "carry on"@) {
        assert(contains_seq(t, w[8]));
    } else if contains_seq(t, "resume"@) {
        assert(contains_seq(t, w[9]));
    } else {
        assert(contains_seq(t, w[10]));
    }
}

/// A text that asks about progress when it holds one of 做到哪, 查到哪, 到什么, 进度, 进展,
/// 怎么样了, 什么情况, status, progress, where are you, how far, 完成多少 and no keyword of
/// a list that takes precedence.
pub proof fn law_progress_keywords(t: Seq<char>)
    requires
        !mentions(t, stop_words()),
        !((encode_utf8(t).len() as usize) <= 2 && mentions(t, short_stop_words())),
        !mentions(t, continue_words()),
        contains_seq(t, "做到哪"@) || contains_seq(t, "查到哪"@) || contains_seq(t, "到什么"@)
            || contains_seq(t, "进度"@) || contains_seq(t, "进展"@) || contains_seq(t, "怎么样了"@)
            || contains_seq(t, "什么情况"@) || contains_seq(t, "status"@) || contains_seq(t, "progress"@)
            || contains_seq(t, "where are you"@) || contains_seq(t, "how far"@) || contains_seq(t, "完成多少"@),
    ensures
        intent_of(t) == InterruptionIntent::ProgressAsk,
{
    let w = progress_words();
    if contains_seq(t, "做到哪"@) {
        assert(contains_seq(t, w[0]));
    } else if contains_seq(t, "查到哪"@) {
        assert(contains_seq(t, w[1]));
    } else if contains_seq(t, "到什么"@) {
        assert(contains_seq(t, w[2]));
    } else if contains_seq(t, "进度"@) {
        assert(contains_seq(t, w[3]));
    } else if contains_seq(t, "进展"@) {
        assert(contains_seq(t, w[4]));
    } else if contains_seq(t, "怎么样了"@) {
        assert(contains_seq(t, w[5]));
    } else if contains_seq(t, "什么情况"@) {
        assert(contains_seq(t, w[6]));
    } else if contains_seq(t, "status"@) {
        assert(contains_seq(t, w[7]));
    } else if contains_seq(t, "progress"@) {
        assert(contains_seq(t, w[8]));
    } else if contains_seq(t, "where are you"@) {
        assert(contains_seq(t, w[9]));
    } else if contains_seq(t, "how far"@) {
        assert(contains_seq(t, w[10]));
    } else {
        assert(contains_seq(t, w[11]));
    }
}

/// A text that redirects the agent when it holds one of 不是这个意思, 换个方向, 你理解错了,
/// 不对, 不是这样, 方向不对, 换个思路, 先别写代码, 先讲方案, 先不说, 另一个方向, 换一个, 换种方式, 换个角度 and no
/// keyword of a list that takes precedence.
pub proof fn law_redirect_keywords(t: Seq<char>)
    requires
        !mentions(t, stop_words()),
        !((encode_utf8(t).len() as usize) <= 2 && mentions(t, short_stop_words())),
        !mentions(t, continue_words()),
        !mentions(t, progress_words()),
        contains_seq(t, "不是这个意思"@) || contains_seq(t, "换个方向"@) || contains_seq(t, "你理解错了"@)
            || contains_seq(t, "不对"@) || contains_seq(t, "不是这样"@) || contains_seq(t, "方向不对"@)
            || contains_seq(t, "换个思路"@) || contains_seq(t, "先别写代码"@) || contains_seq(t, "先讲方案"@)
            || contains_seq(t, "先不说"@) || contains_seq(t, "另一个方向"@) || contains_seq(t, "换一个"@)
            || contains_seq(t, "换种方式"@) || contains_seq(t, "换个角度"@),
    ensures
        intent_of(t) == InterruptionIntent::Redirect,
{
    let w = redirect_words();
    if contains_seq(t, "不是这个意思"@) {
        assert(contains_seq(t, w[0]));
    } else if contains_seq(t, "换个方向"@) {
        assert(contains_seq(t, w[1]));
    } else if contains_seq(t, "你理解错了"@) {
        assert(contains_seq(t, w[2]));
    } else if contains_seq(t, "不对"@) {
        assert(contains_seq(t, w[3]));
    } else if contains_seq(t, "不是这样"@) {
        assert(contains_seq(t, w[4]));
    } else if contains_seq(t, "方向不对"@) {
        assert(contains_seq(t, w[5]));
    } else if contains_seq(t, "换个思路"@) {
        assert(contains_seq(t, w[6]));
    } else if contains_seq(t, "先别写代码"@) {
        assert(contains_seq(t, w[7]));
    } else if contains_seq(t, "先讲方案"@) {
        assert(contains_seq(t, w[8]));
    } else if contains_seq(t, "先不说"@) {
        assert(contains_seq(t, w[9]));
    } else if contains_seq(t, "另一个方向"@) {
        assert(contains_seq(t, w[10]));
    } else if contains_seq(t, "换一个"@) {
        assert(contains_seq(t, w[11]));
    } else if contains_seq(t, "换种方式"@) {
        assert(contains_seq(t, w[12]));
    } else {
        assert(contains_seq(t, w[13]));
    }
}

/// A text that sets a constraint when it holds one of 不要用, 不能用, 必须, 不允许, 禁止,
/// 别用, 限制, 约束, 条件, 注意, 要求, 改成, 改为, 改用, 用不了, 不支持 and no keyword of a list that
/// takes precedence.
pub proof fn law_constraint_keywords(t: Seq<char>)
    requires
        !mentions(t, stop_words()),
        !((encode_utf8(t).len() as usize) <= 2 && mentions(t, short_stop_words())),
        !mentions(t, continue_words()),
        !mentions(t, progress_words()),
        !mentions(t, redirect_words()),
        contains_seq(t, "不要用"@) || contains_seq(t, "不能用"@) || contains_seq(t, "必须"@)
            || contains_seq(t, "不允许"@) || contains_seq(t, "禁止"@) || contains_seq(t, "别用"@)
            || contains_seq(t, "限制"@) || contains_seq(t, "约束"@) || contains_seq(t, "条件"@)
            || contains_seq(t, "注意"@) || contains_seq(t, "要求"@) || contains_seq(t, "改成"@)
            || contains_seq(t, "改为"@) || contains_seq(t, "改用"@) || contains_seq(t, "用不了"@)
            || contains_seq(t, "不支持"@),
    ensures
        intent_of(t) == InterruptionIntent::Constraint,
{
    let w = constraint_words();
    if contains_seq(t, "不要用"@) {
        assert(contains_seq(t, w[0]));
    } else if contains_seq(t, "不能用"@) {
        assert(contains_seq(t, w[1]));
    } else if contains_seq(t, "必须"@) {
        assert(contains_seq(t, w[2]));
    } else if contains_seq(t, "不允许"@) {
        assert(contains_seq(t, w[3]));
    } else if contains_seq(t, "禁止"@) {
        assert(contains_seq(t, w[4]));
    } else if contains_seq(t, "别用"@) {
        assert(contains_seq(t, w[5]));
    } else if contains_seq(t, "限制"@) {
        assert(contains_seq(t, w[6]));
    } else if contains_seq(t, "约束"@) {
        assert(contains_seq(t, w[7]));
    } else if contains_seq(t, "条件"@) {
        assert(contains_seq(t, w[8]));
    } else if contains_seq(t, "注意"@) {
        assert(contains_seq(t, w[9]));
    } else if contains_seq(t, "要求"@) {
        assert(contains_seq(t, w[10]));
    } else if contains_seq(t, "改成"@) {
        assert(contains_seq(t, w[11]));
    } else if contains_seq(t, "改为"@) {
        assert(contains_seq(t, w[12]));
    } else if contains_seq(t, "改用"@) {
        assert(contains_seq(t, w[13]));
    } else if contains_seq(t, "用不了"@) {
        assert(contains_seq(t, w[14]));
    } else {
        assert(contains_seq(t, w[15]));
    }
}

/// A text that corrects what may be touched when it holds one of 不能改, 不能写, 只能读,
/// 不可以, 不允许改, 这个文件, 那个文件, 不能动, 只允许, 不能删除, 不能修改 and no keyword of a list that
/// takes precedence.
pub proof fn law_approval_keywords(t: Seq<char>)
    requires
        !mentions(t, stop_words()),
        !((encode_utf8(t).len() as usize) <= 2 && mentions(t, short_stop_words())),
        !mentions(t, continue_words()),
        !mentions(t, progress_words()),
        !mentions(t, redirect_words()),
        !mentions(t, constraint_words()),
        contains_seq(t, "不能改"@) || contains_seq(t, "不能写"@) || contains_seq(t, "只能读"@)
            || contains_seq(t, "不可以"@) || contains_seq(t, "不允许改"@) || contains_seq(t, "这个文件"@)
            || contains_seq(t, "那个文件"@) || contains_seq(t, "不能动"@) || contains_seq(t, "只允许"@)
            || contains_seq(t, "不能删除"@) || contains_seq(t, "不能修改"@),
    ensures
        intent_of(t) == InterruptionIntent::ApprovalCorrection,
{
    let w = approval_words();
    if contains_seq(t, "不能改"@) {
        assert(contains_seq(t, w[0]));
    } else if contains_seq(t, "不能写"@) {
        assert(contains_seq(t, w[1]));
    } else if contains_seq(t, "只能读"@) {
        assert(contains_seq(t, w[2]));
    } else if contains_seq(t, "不可以"@) {
        assert(contains_seq(t, w[3]));
    } else if contains_seq(t, "不允许改"@) {
        assert(contains_seq(t, w[4]));
    } else if contains_seq(t, "这个文件"@) {
        assert(contains_seq(t, w[5]));
    } else if contains_seq(t, "那个文件"@) {
        assert(contains_seq(t, w[6]));
    } else if contains_seq(t, "不能动"@) {
        assert(contains_seq(t, w[7]));
    } else if contains_seq(t, "只允许"@) {
        assert(contains_seq(t, w[8]));
    } else if contains_seq(t, "不能删除"@) {
        assert(contains_seq(t, w[9]));
    } else {
        assert(contains_seq(t, w[10]));
    }
}

/// A keyword given alone is found in itself, so each stop keyword alone is
/// a stop.
pub proof fn law_stop_keyword_alone(w: Seq<char>)
    requires
        w == "停"@ || w == "停止"@ || w == "停下"@ || w == "别继续"@ || w == "先到这里"@ || w == "不要再做了"@
            || w == "stop"@ || w == "cancel"@ || w == "halt"@ || w == "abort"@ || w == "别说了"@ || w == "别讲了"@
            || w == "够了"@,
    ensures
        intent_of(w) == InterruptionIntent::Stop,
{
    assert(w.subrange(0, w.len() as int) =~= w);
    assert(crate::text::occurs_at(w, w, 0));
    law_stop_keywords_stop(w);
}

/// Classifies an interjection: trims it, lowercases it, and matches it
/// against the keyword lists.

pub fn intent_classify(text: &str) -> (r: InterruptionIntent)
    ensures
        r == intent_of(lowercase(trimmed(text@))),
{
    let trimmed_text = trim(text);
    let t = to_lowercase(trimmed_text.as_str());
    classify_normalized(t.as_str())
}

} // verus!
