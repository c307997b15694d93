//! Slack mrkdwn becomes Markdown.

use slack2buzz::mrkdwn::{normalize, Normalized, Resolver};
use slack2buzz::names::Names;

fn resolver() -> Resolver {
    let mut users = Names::new();
    users.insert("U024BE7LH".to_string(), "pawel".to_string());
    users.insert("U0ALICE".to_string(), "alice".to_string());
    let mut channels = Names::new();
    channels.insert("C0GENERAL".to_string(), "general".to_string());
    Resolver { users, channels }
}

fn norm(input: &str) -> Normalized {
    normalize(input, &resolver())
}

#[test]
fn plain_text_is_unchanged() {
    assert_eq!(norm("hello world").text, "hello world");
}

#[test]
fn user_mention_resolves_and_is_recorded() {
    let n = norm("hi <@U024BE7LH>!");
    assert_eq!(n.text, "hi @pawel!");
    assert_eq!(n.mentions, vec!["U024BE7LH"]);
}

#[test]
fn unknown_user_falls_back_to_id_and_still_records_the_mention() {
    let n = norm("hi <@UNOBODY>");
    assert_eq!(n.text, "hi @UNOBODY");
    assert_eq!(n.mentions, vec!["UNOBODY"]);
}

#[test]
fn explicit_mention_label_wins_over_the_resolver() {
    let n = norm("<@U024BE7LH|paweł>");
    assert_eq!(n.text, "@paweł");
    assert_eq!(n.mentions, vec!["U024BE7LH"]);
}

#[test]
fn mentions_are_deduplicated_in_first_appearance_order() {
    let n = norm("<@U0ALICE> <@U024BE7LH> <@U0ALICE>");
    assert_eq!(n.mentions, vec!["U0ALICE", "U024BE7LH"]);
}

#[test]
fn channel_refs_use_label_then_resolver_then_id() {
    assert_eq!(norm("<#C0GENERAL|general>").text, "#general");
    assert_eq!(norm("<#C0GENERAL>").text, "#general");
    assert_eq!(norm("<#C0UNKNOWN>").text, "#C0UNKNOWN");
}

#[test]
fn broadcast_keywords_become_plain_at_mentions() {
    assert_eq!(norm("<!here>").text, "@here");
    assert_eq!(norm("<!channel>").text, "@channel");
    assert_eq!(norm("<!everyone>").text, "@everyone");
}

#[test]
fn user_group_ref_uses_its_label() {
    assert_eq!(norm("<!subteam^S0ENG|@eng>").text, "@eng");
}

#[test]
fn links_become_markdown_only_when_labelled_differently() {
    assert_eq!(
        norm("<https://x.test|the site>").text,
        "[the site](https://x.test)"
    );
    assert_eq!(norm("<https://x.test>").text, "https://x.test");
    assert_eq!(
        norm("<https://x.test|https://x.test>").text,
        "https://x.test"
    );
}

#[test]
fn mailto_refs_are_rendered_bare() {
    assert_eq!(norm("<mailto:a@b.test|a@b.test>").text, "a@b.test");
    assert_eq!(norm("<mailto:a@b.test>").text, "a@b.test");
}

#[test]
fn bold_and_strike_are_widened_italic_is_left_alone() {
    assert_eq!(norm("*bold*").text, "**bold**");
    assert_eq!(norm("~gone~").text, "~~gone~~");
    assert_eq!(norm("_italic_").text, "_italic_");
}

#[test]
fn arithmetic_and_identifiers_are_not_mistaken_for_emphasis() {
    assert_eq!(norm("2 * 3 * 4").text, "2 * 3 * 4");
    assert_eq!(norm("snake_case_name").text, "snake_case_name");
    assert_eq!(norm("a * b").text, "a * b");
}

#[test]
fn emphasis_does_not_span_newlines() {
    assert_eq!(norm("*not\nbold*").text, "*not\nbold*");
}

#[test]
fn entities_are_decoded() {
    assert_eq!(norm("a &amp; b").text, "a & b");
    assert_eq!(norm("&lt;tag&gt;").text, "<tag>");
}

/// The ordering rule from the module docs: an escaped angle bracket is
/// literal text and must not be parsed as a ref.
#[test]
fn escaped_angle_brackets_do_not_become_refs() {
    let n = norm("literally &lt;@U024BE7LH&gt; ok");
    assert_eq!(n.text, "literally <@U024BE7LH> ok");
    assert!(n.mentions.is_empty(), "no real mention was present");
}

#[test]
fn double_escaped_ampersand_survives_one_decode_only() {
    assert_eq!(norm("&amp;lt;").text, "&lt;");
}

#[test]
fn inline_code_is_not_rewritten() {
    let n = norm("run `*not bold*` please");
    assert_eq!(n.text, "run `*not bold*` please");
}

#[test]
fn fenced_code_is_not_rewritten_but_is_unescaped() {
    let n = norm("```\nif (a &lt; b) *x*;\n```");
    assert_eq!(n.text, "```\nif (a < b) *x*;\n```");
    assert!(n.mentions.is_empty());
}

#[test]
fn refs_inside_code_are_left_literal_and_not_counted_as_mentions() {
    let n = norm("`<@U024BE7LH>`");
    assert_eq!(n.text, "`<@U024BE7LH>`");
    assert!(n.mentions.is_empty());
}

#[test]
fn text_around_code_is_still_normalised() {
    let n = norm("*before* `raw *x*` *after*");
    assert_eq!(n.text, "**before** `raw *x*` **after**");
}

#[test]
fn unterminated_backtick_is_literal_and_does_not_eat_the_message() {
    let n = norm("a ` b *bold*");
    assert_eq!(n.text, "a ` b **bold**");
}

#[test]
fn unterminated_angle_bracket_is_kept() {
    assert_eq!(norm("a < b").text, "a < b");
}

#[test]
fn blockquote_marker_decodes_to_markdown_quote() {
    assert_eq!(norm("&gt; quoted").text, "> quoted");
}

#[test]
fn nothing_is_resolved_by_an_empty_resolver() {
    let n = normalize("<@U0ALICE> in <#C0GENERAL>", &Resolver::default());
    assert_eq!(n.text, "@U0ALICE in #C0GENERAL");
}

#[test]
fn dates_and_group_refs_without_a_label_fall_back_to_their_body() {
    assert_eq!(norm("<!subteam^S0ENG>").text, "@subteam");
    assert_eq!(norm("<!date^1392734382^{date}|Feb 18>").text, "Feb 18");
}

#[test]
fn decoding_undoes_escaping() {
    let plain = "a < b && c > d &amp; &lt;";
    let escaped = plain
        .replace('&', "&amp;")
        .replace('<', "&lt;")
        .replace('>', "&gt;");
    assert_eq!(norm(&escaped).text, plain);
}

#[test]
fn delimiters_that_do_not_hug_are_kept() {
    assert_eq!(norm("a*b*c").text, "a**b**c");
    assert_eq!(norm("(*b*)").text, "(**b**)");
    assert_eq!(norm("**").text, "**");
    assert_eq!(norm("* b*").text, "* b*");
    assert_eq!(norm("*b *c*").text, "**b *c**");
    assert_eq!(norm("~a~ and *b*").text, "~~a~~ and **b**");
}

#[test]
fn empty_and_bare_refs() {
    assert_eq!(norm("<>").text, "");
    assert_eq!(norm("<@>").text, "@");
    assert!(norm("<@>").mentions.is_empty());
    assert_eq!(norm("<tel:+48123|call me>").text, "[call me](+48123)");
    assert_eq!(norm("<#C0GENERAL|>").text, "#general");
}
