//! What a code-analysis language server shows for an analysis, and what it asks for one.

use vstd::prelude::*;
use vstd::string::StringExecFns;

verus! {

#[derive(Clone, Copy, Debug, PartialEq, Eq, Structural)]
pub enum MessageKind {
    Info,
    Error,
}

/// A message for the editor.
pub struct Report {
    pub kind: MessageKind,
    pub text: String,
}

/// A chat message of an analysis request.
pub struct ChatMessage {
    pub role: String,
    pub content: String,
}

pub open spec fn failure_prefix() -> Seq<char> {
    "Analysis failed: "@
}

/// An analysis is shown as information; a failure as an error naming its cause.
pub fn analysis_report(result: Result<String, String>) -> (r: Report)
    ensures
        match result {
            Ok(a) => r.kind == MessageKind::Info && r.text@ == a@,
            Err(e) => r.kind == MessageKind::Error && r.text@ == failure_prefix() + e@,
        },
{
    match result {
        Ok(analysis) => Report { kind: MessageKind::Info, text: analysis },
        Err(e) => {
            let mut text = String::from_str("Analysis failed: ");
            text.append(e.as_str());
            Report { kind: MessageKind::Error, text }
        },
    }
}

/// The document text to analyse after a change: that of the last change, if any.
pub fn latest_change(changes: &Vec<String>) -> (r: Option<usize>)
    ensures
        changes@.len() == 0 ==> r is None,
        changes@.len() > 0 ==> r == Some((changes@.len() - 1) as usize),
{
    if changes.len() == 0 {
        None
    } else {
        Some(changes.len() - 1)
    }
}

pub open spec fn analysis_instructions() -> Seq<char> {
    "あなたはRustコードの品質とセキュリティを分析する専門家です。以下の観点でコードをレビューし、Markdown形式でレポートを作成してください：\n\n1. コード品質と標準\n2. セキュリティと脆弱性\n3. エラー処理と耐障害性\n4. パフォーマンスとリソース管理\n5. ドキュメンテーション"@
}

/// The messages of an analysis request: the analyst's instructions, then the code.
pub fn analysis_messages(code: &str) -> (r: Vec<ChatMessage>)
    ensures
        r@.len() == 2,
        r@[0].role@ == "system"@,
        r@[0].content@ == analysis_instructions(),
        r@[1].role@ == "user"@,
        r@[1].content@ == code@,
{
    let mut r: Vec<ChatMessage> = Vec::new();
    r.push(
        ChatMessage {
            role: String::from_str("system"),
            content: String::from_str(
                "あなたはRustコードの品質とセキュリティを分析する専門家です。以下の観点でコードをレビューし、Markdown形式でレポートを作成してください：\n\n1. コード品質と標準\n2. セキュリティと脆弱性\n3. エラー処理と耐障害性\n4. パフォーマンスとリソース管理\n5. ドキュメンテーション",
            ),
        },
    );
    r.push(ChatMessage { role: String::from_str("user"), content: String::from_str(code) });
    r
}

} // verus!
