use fast_rl_rewards::extraction::extract_code_from_completion;

#[test]
fn answer_with_python_fence() {
    let completion =
        "<think>x</think>\n<answer>```python\ndef add(a,b):\n    return a+b\n```</answer>";
    assert_eq!(
        extract_code_from_completion(completion),
        "def add(a,b):\n    return a+b"
    );
}

#[test]
fn answer_with_plain_fence() {
    let completion = "<answer>```\ncode\n```</answer>";
    assert_eq!(extract_code_from_completion(completion), "code");
}

#[test]
fn answer_without_fence_is_trimmed() {
    let completion = "<answer>  print('hi')  </answer>";
    assert_eq!(extract_code_from_completion(completion), "print('hi')");
}

#[test]
fn answer_tags_match_case_insensitively() {
    let completion = "<ANSWER>hi</ANSWER>";
    assert_eq!(extract_code_from_completion(completion), "hi");
    // the long s folds with `s` under simple case folding
    let completion = "<an\u{17f}wer>hi</an\u{17f}wer>";
    assert_eq!(extract_code_from_completion(completion), "hi");
}

#[test]
fn first_answer_block_wins() {
    let completion = "<answer>one</answer><answer>two</answer>";
    assert_eq!(extract_code_from_completion(completion), "one");
}

#[test]
fn unclosed_answer_falls_through_to_code_block() {
    let completion = "<answer> no close here ```python\nfoo()\n``` tail";
    assert_eq!(extract_code_from_completion(completion), "foo()");
}

#[test]
fn bare_code_block_is_used_without_answer_tags() {
    let completion = "text before ```python\nfoo()\n``` text after";
    assert_eq!(extract_code_from_completion(completion), "foo()");
}

#[test]
fn plain_text_is_returned_trimmed() {
    let completion = "  def mul(a,b): return a*b \n";
    assert_eq!(
        extract_code_from_completion(completion),
        "def mul(a,b): return a*b"
    );
}

#[test]
fn extraction_is_idempotent_on_plain_source() {
    let plain = "def f(x):\n    return x + 1";
    let once = extract_code_from_completion(plain);
    let twice = extract_code_from_completion(&once);
    assert_eq!(once, twice);
    assert_eq!(once, plain);
}

#[test]
fn inner_fences_are_stripped_only_at_the_boundary() {
    let completion = "<answer>```python\nhead()\n```\nmiddle\n```python\ntail()\n```</answer>";
    let code = extract_code_from_completion(completion);
    assert_eq!(code, "head()\n```\nmiddle\n```python\ntail()");
}

#[test]
fn empty_completion_extracts_to_empty() {
    assert_eq!(extract_code_from_completion(""), "");
}
