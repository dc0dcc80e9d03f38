//! The chat-completion data model and the four fixed prompt templates.
//!
//! The transport (HTTP, retries, authentication) is the caller's part;
//! here stand the message builders the pipeline's two extraction calls
//! use — plus the answer-generation and structure-extraction templates —
//! and the reader that picks a reply's content out of a response.

use vstd::prelude::*;
use vstd::string::*;

verus! {

/// One chat message: a `system`, `user` or `assistant` turn.
#[derive(Debug)]
pub struct ChatMessage {
    pub role: String,
    pub content: String,
}

/// The mathematical content of a [`ChatMessage`].
pub struct ChatMessageView {
    pub role: Seq<char>,
    pub content: Seq<char>,
}

impl View for ChatMessage {
    type V = ChatMessageView;

    open spec fn view(&self) -> ChatMessageView {
        ChatMessageView { role: self.role@, content: self.content@ }
    }
}

/// One completion choice of a chat response.
#[derive(Debug)]
pub struct ChatChoice {
    pub index: u32,
    pub message: ChatMessage,
    pub finish_reason: Option<String>,
}

/// A chat-completion response.
#[derive(Debug)]
pub struct ChatResponse {
    pub id: String,
    pub object: String,
    pub created: u64,
    pub model: String,
    pub choices: Vec<ChatChoice>,
}

/// The views of a message list.
pub open spec fn message_views(v: Seq<ChatMessage>) -> Seq<ChatMessageView> {
    v.map_values(|m: ChatMessage| m@)
}

/// The system prompt instructing the model to extract worked examples
/// as an `examples` JSON array.
pub open spec fn examples_system_prompt() -> Seq<char> {
    "你是一个专业的教育内容分析助手。请分析以下文本，识别出其中的例题（带有完整答案或解析的题目）。\n\n对于每道例题，请提取：\n1. 题目内容\n2. 答案或解析\n3. 涉及的知识点\n4. 所属章节（如果能识别）\n\n请以 JSON 格式返回结果：\n{\n  \"examples\": [\n    {\n      \"question\": \"题目内容\",\n      \"answer\": \"答案内容\",\n      \"analysis\": \"详细解析\",\n      \"knowledge_points\": [\"知识点1\", \"知识点2\"],\n      \"chapter\": \"章节名称\",\n      \"section\": \"小节名称\"\n    }\n  ]\n}"@
}

/// The system prompt instructing the model to extract and solve
/// exercises as an `exercises` JSON array.
pub open spec fn exercises_system_prompt() -> Seq<char> {
    "你是一个专业的教育内容分析助手。请分析以下文本，识别出其中的课后习题（没有答案的练习题）。\n\n参考以下知识点和例题上下文来解答这些题目。\n\n对于每道习题，请提取并生成：\n1. 题目内容\n2. 详细答案（根据知识点和例题推理）\n3. 解题思路分析\n4. 涉及的知识点\n5. 所属章节（如果能识别）\n\n请以 JSON 格式返回结果：\n{\n  \"exercises\": [\n    {\n      \"question\": \"题目内容\",\n      \"answer\": \"生成的答案\",\n      \"analysis\": \"详细解析\",\n      \"knowledge_points\": [\"知识点1\", \"知识点2\"],\n      \"chapter\": \"章节名称\",\n      \"section\": \"小节名称\"\n    }\n  ]\n}"@
}

/// The system prompt for generating one answer from context.
pub open spec fn answer_system_prompt() -> Seq<char> {
    "你是一个专业的教育内容分析助手。请根据提供的知识点和上下文，为给定的题目生成详细的答案和解析。\n\n请以 JSON 格式返回结果：\n{\n  \"answer\": \"简洁的答案\",\n  \"analysis\": \"详细的解题步骤和思路分析\",\n  \"knowledge_points\": [\"涉及的知识点\"]\n}"@
}

/// The system prompt for extracting a chapter structure.
pub open spec fn structure_system_prompt() -> Seq<char> {
    "你是一个专业的教育内容分析助手。请分析以下文本，识别出章节结构和主要知识点。\n\n请以 JSON 格式返回结果：\n{\n  \"chapters\": [\n    {\n      \"name\": \"章节名称\",\n      \"sections\": [\n        {\n          \"name\": \"小节名称\",\n          \"knowledge_points\": [\"知识点1\", \"知识点2\"]\n        }\n      ]\n    }\n  ]\n}"@
}

/// A well-formed two-turn request: a system prompt, then a user turn.
pub open spec fn prompt_pair(
    v: Seq<ChatMessageView>,
    system: Seq<char>,
    user: Seq<char>,
) -> bool {
    v.len() == 2 && v[0].role == "system"@ && v[0].content == system && v[1].role == "user"@
        && v[1].content == user
}

/// The messages of the example-extraction call over a page's text.
pub fn analyze_examples_messages(text: &str) -> (r: Vec<ChatMessage>)
    ensures
        prompt_pair(
            message_views(r@),
            examples_system_prompt(),
            "请分析以下文本中的例题：\n\n"@ + text@,
        ),
{
    let system = ChatMessage {
        role: "system".to_owned(),
        content:
            "你是一个专业的教育内容分析助手。请分析以下文本，识别出其中的例题（带有完整答案或解析的题目）。\n\n对于每道例题，请提取：\n1. 题目内容\n2. 答案或解析\n3. 涉及的知识点\n4. 所属章节（如果能识别）\n\n请以 JSON 格式返回结果：\n{\n  \"examples\": [\n    {\n      \"question\": \"题目内容\",\n      \"answer\": \"答案内容\",\n      \"analysis\": \"详细解析\",\n      \"knowledge_points\": [\"知识点1\", \"知识点2\"],\n      \"chapter\": \"章节名称\",\n      \"section\": \"小节名称\"\n    }\n  ]\n}".to_owned(),
    };
    let mut user_content = String::new();
    user_content.append("请分析以下文本中的例题：\n\n");
    user_content.append(text);
    let user = ChatMessage { role: "user".to_owned(), content: user_content };
    let mut r: Vec<ChatMessage> = Vec::new();
    r.push(system);
    r.push(user);
    r
}

/// The messages of the exercise-extraction-and-solving call: the
/// retrieval context, then the page's text.
pub fn analyze_exercises_messages(text: &str, context: &str) -> (r: Vec<ChatMessage>)
    ensures
        prompt_pair(
            message_views(r@),
            exercises_system_prompt(),
            "参考上下文：\n"@ + context@ + "\n\n请分析以下文本中的课后习题并给出答案：\n\n"@
                + text@,
        ),
{
    let system = ChatMessage {
        role: "system".to_owned(),
        content:
            "你是一个专业的教育内容分析助手。请分析以下文本，识别出其中的课后习题（没有答案的练习题）。\n\n参考以下知识点和例题上下文来解答这些题目。\n\n对于每道习题，请提取并生成：\n1. 题目内容\n2. 详细答案（根据知识点和例题推理）\n3. 解题思路分析\n4. 涉及的知识点\n5. 所属章节（如果能识别）\n\n请以 JSON 格式返回结果：\n{\n  \"exercises\": [\n    {\n      \"question\": \"题目内容\",\n      \"answer\": \"生成的答案\",\n      \"analysis\": \"详细解析\",\n      \"knowledge_points\": [\"知识点1\", \"知识点2\"],\n      \"chapter\": \"章节名称\",\n      \"section\": \"小节名称\"\n    }\n  ]\n}".to_owned(),
    };
    let mut user_content = String::new();
    user_content.append("参考上下文：\n");
    user_content.append(context);
    user_content.append("\n\n请分析以下文本中的课后习题并给出答案：\n\n");
    user_content.append(text);
    let user = ChatMessage { role: "user".to_owned(), content: user_content };
    let mut r: Vec<ChatMessage> = Vec::new();
    r.push(system);
    r.push(user);
    r
}

/// The messages of the answer-generation call over one question.
pub fn generate_answer_messages(question: &str, context: &str) -> (r: Vec<ChatMessage>)
    ensures
        prompt_pair(
            message_views(r@),
            answer_system_prompt(),
            "参考知识点和上下文：\n"@ + context@ + "\n\n请为以下题目生成答案：\n\n"@
                + question@,
        ),
{
    let system = ChatMessage {
        role: "system".to_owned(),
        content:
            "你是一个专业的教育内容分析助手。请根据提供的知识点和上下文，为给定的题目生成详细的答案和解析。\n\n请以 JSON 格式返回结果：\n{\n  \"answer\": \"简洁的答案\",\n  \"analysis\": \"详细的解题步骤和思路分析\",\n  \"knowledge_points\": [\"涉及的知识点\"]\n}".to_owned(),
    };
    let mut user_content = String::new();
    user_content.append("参考知识点和上下文：\n");
    user_content.append(context);
    user_content.append("\n\n请为以下题目生成答案：\n\n");
    user_content.append(question);
    let user = ChatMessage { role: "user".to_owned(), content: user_content };
    let mut r: Vec<ChatMessage> = Vec::new();
    r.push(system);
    r.push(user);
    r
}

/// The messages of the structure-extraction call over a text.
pub fn extract_structure_messages(text: &str) -> (r: Vec<ChatMessage>)
    ensures
        prompt_pair(
            message_views(r@),
            structure_system_prompt(),
            "请分析以下文本的章节结构：\n\n"@ + text@,
        ),
{
    let system = ChatMessage {
        role: "system".to_owned(),
        content:
            "你是一个专业的教育内容分析助手。请分析以下文本，识别出章节结构和主要知识点。\n\n请以 JSON 格式返回结果：\n{\n  \"chapters\": [\n    {\n      \"name\": \"章节名称\",\n      \"sections\": [\n        {\n          \"name\": \"小节名称\",\n          \"knowledge_points\": [\"知识点1\", \"知识点2\"]\n        }\n      ]\n    }\n  ]\n}".to_owned(),
    };
    let mut user_content = String::new();
    user_content.append("请分析以下文本的章节结构：\n\n");
    user_content.append(text);
    let user = ChatMessage { role: "user".to_owned(), content: user_content };
    let mut r: Vec<ChatMessage> = Vec::new();
    r.push(system);
    r.push(user);
    r
}

/// The reply text of a response: the first choice's message content,
/// or nothing for an empty choice list.
pub fn first_choice_content(resp: &ChatResponse) -> (r: Option<String>)
    ensures
        match r {
            Some(s) => resp.choices@.len() > 0 && s@ == resp.choices@[0].message.content@,
            None => resp.choices@.len() == 0,
        },
{
    if resp.choices.len() > 0 {
        Some(resp.choices[0].message.content.clone())
    } else {
        None
    }
}

} // verus!
