use zhongshu_core::intent::{intent_classify, InterruptionIntent};

#[test]
fn test_stop_intents() {
    assert_eq!(intent_classify("停"), InterruptionIntent::Stop);
    assert_eq!(intent_classify("stop"), InterruptionIntent::Stop);
    assert_eq!(intent_classify("别继续了"), InterruptionIntent::Stop);
    assert_eq!(intent_classify("先到这里吧"), InterruptionIntent::Stop);
}

#[test]
fn test_continue_intents() {
    assert_eq!(intent_classify("继续"), InterruptionIntent::Continue);
    assert_eq!(intent_classify("接着来"), InterruptionIntent::Continue);
    assert_eq!(intent_classify("continue"), InterruptionIntent::Continue);
}

#[test]
fn test_progress_ask() {
    assert_eq!(intent_classify("你现在做到哪了"), InterruptionIntent::ProgressAsk);
    assert_eq!(intent_classify("进度怎么样了"), InterruptionIntent::ProgressAsk);
    assert_eq!(intent_classify("status"), InterruptionIntent::ProgressAsk);
}

#[test]
fn test_redirect_intents() {
    assert_eq!(intent_classify("不是这个意思"), InterruptionIntent::Redirect);
    assert_eq!(intent_classify("换个方向"), InterruptionIntent::Redirect);
    assert_eq!(intent_classify("先别写代码"), InterruptionIntent::Redirect);
}

#[test]
fn test_constraint_intents() {
    assert_eq!(intent_classify("不要用数据库"), InterruptionIntent::Constraint);
    assert_eq!(intent_classify("必须兼容 Windows"), InterruptionIntent::Constraint);
}

#[test]
fn test_approval_correction() {
    assert_eq!(intent_classify("这个文件不能改"), InterruptionIntent::ApprovalCorrection);
    assert_eq!(intent_classify("只能读不能写"), InterruptionIntent::ApprovalCorrection);
}

#[test]
fn test_other_fallback() {
    assert_eq!(intent_classify("你好"), InterruptionIntent::Other);
    assert_eq!(intent_classify("我想问个问题"), InterruptionIntent::Other);
}

#[test]
fn classification_ignores_case_and_surrounding_space() {
    assert_eq!(intent_classify("  STOP  "), InterruptionIntent::Stop);
    assert_eq!(intent_classify("Continue"), InterruptionIntent::Continue);
    assert_eq!(intent_classify("STATUS"), InterruptionIntent::ProgressAsk);
}

#[test]
fn surrounding_whitespace_does_not_change_the_intent() {
    for text in ["  STOP ", "\tStatus\n", " 继续 ", "hello"] {
        assert_eq!(intent_classify(text), intent_classify(text.trim()));
    }
}
