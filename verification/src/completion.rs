//! What an editor offers to complete: the macros of the grammar language.

use vstd::prelude::*;
use vstd::string::*;

verus! {

/// The documentation of a macro.
#[derive(Clone, Debug)]
pub struct DocumentString {
    /// The name of the macro.
    pub cmd: String,
    /// One line on what it does.
    pub short: String,
    /// All that is to say about it, as Markdown.
    pub long: String,
}

/// What kind of thing is completed.
#[derive(Clone, Copy, Debug, PartialEq, Eq, Structural)]
pub enum CompletionItemKind {
    /// A function.
    Function,
}

/// How the text that is inserted is to be read.
#[derive(Clone, Copy, Debug, PartialEq, Eq, Structural)]
pub enum InsertTextFormat {
    /// As it is.
    PlainText,
    /// With places for the cursor, `$1` being the first.
    Snippet,
}

/// An offer to complete.
#[derive(Clone, Debug)]
pub struct CompletionItem {
    /// What the editor shows.
    pub label: String,
    /// What kind of thing is completed.
    pub kind: Option<CompletionItemKind>,
    /// One line of detail.
    pub detail: Option<String>,
    /// The documentation, as Markdown.
    pub documentation: Option<String>,
    /// What is inserted.
    pub insert_text: Option<String>,
    /// How the text that is inserted is to be read.
    pub insert_text_format: Option<InsertTextFormat>,
}

/// The model of an offer that completes a macro.
pub struct MacroItemView {
    pub label: Seq<char>,
    pub detail: Seq<char>,
    pub documentation: Seq<char>,
    pub insert_text: Seq<char>,
}

/// True when `item` completes a function by a snippet as `view` says.
pub open spec fn is_macro_item(item: CompletionItem, view: MacroItemView) -> bool {
    &&& item.label@ == view.label
    &&& item.kind == Some(CompletionItemKind::Function)
    &&& item.detail matches Some(d) && d@ == view.detail
    &&& item.documentation matches Some(d) && d@ == view.documentation
    &&& item.insert_text matches Some(t) && t@ == view.insert_text
    &&& item.insert_text_format == Some(InsertTextFormat::Snippet)
}

/// What completes the macro that `doc` documents: its name, and behind it
/// parentheses with the cursor between them.
pub open spec fn macro_item(doc: DocumentString) -> MacroItemView {
    MacroItemView {
        label: doc.cmd@,
        detail: doc.short@,
        documentation: doc.long@,
        insert_text: doc.cmd@ + "($1)"@,
    }
}

/// The offer to complete the macro that `doc` documents.
pub fn build_command(doc: &DocumentString) -> (item: CompletionItem)
    ensures
        is_macro_item(item, macro_item(*doc)),
{
    let mut insert = doc.cmd.clone();
    insert.append("($1)");
    CompletionItem {
        label: doc.cmd.clone(),
        kind: Some(CompletionItemKind::Function),
        detail: Some(doc.short.clone()),
        documentation: Some(doc.long.clone()),
        insert_text: Some(insert),
        insert_text_format: Some(InsertTextFormat::Snippet),
    }
}

/// The offers to complete the macros that `docs` document, in their order.
pub fn complete_macros(docs: &Vec<DocumentString>) -> (items: Vec<CompletionItem>)
    ensures
        items@.len() == docs@.len(),
        forall|i: int|
            0 <= i < docs@.len() ==> is_macro_item(#[trigger] items@[i], macro_item(docs@[i])),
{
    let mut items: Vec<CompletionItem> = Vec::new();
    let mut i: usize = 0;
    while i < docs.len()
        invariant
            i <= docs.len(),
            items.len() == i,
            forall|k: int| 0 <= k < i ==> is_macro_item(#[trigger] items@[k], macro_item(docs@[k])),
        decreases docs.len() - i,
    {
        items.push(build_command(&docs[i]));
        i = i + 1;
    }
    items
}

} // verus!
