//! What an extension declares about itself, as read from its source.
use crate::text::str_eq;
use vstd::prelude::*;

verus! {

/// The browser family a build targets.
#[derive(Debug, Clone, Copy, PartialEq, Eq, Structural)]
pub enum Browser {
    Chromium,
    Firefox,
}

/// When to inject the content script into the page.
#[derive(Debug, Clone, Copy, PartialEq, Eq, Structural)]
pub enum RunAt {
    /// Inject after the DOM is complete, but before subresources like images have loaded.
    DocumentEnd,
    /// Inject after the page is idle (default).
    DocumentIdle,
    /// Inject before any other DOM content is constructed or any script is run.
    DocumentStart,
}

/// The variant of [`RunAt`] that an identifier names, if any.
pub open spec fn run_at_of_ident(name: Seq<char>) -> Option<RunAt> {
    if name == "DocumentStart"@ {
        Some(RunAt::DocumentStart)
    } else if name == "DocumentEnd"@ {
        Some(RunAt::DocumentEnd)
    } else if name == "DocumentIdle"@ {
        Some(RunAt::DocumentIdle)
    } else {
        None
    }
}

/// The value of `run_at` in the extension manifest for each variant.
pub open spec fn run_at_manifest_text(r: RunAt) -> Seq<char> {
    match r {
        RunAt::DocumentStart => "document_start"@,
        RunAt::DocumentEnd => "document_end"@,
        RunAt::DocumentIdle => "document_idle"@,
    }
}

impl RunAt {
    /// The variant named by an identifier such as `DocumentStart`.
    pub fn from_ident(name: &str) -> (r: Option<RunAt>)
        ensures
            r == run_at_of_ident(name@),
    {
        if str_eq(name, "DocumentStart") {
            Some(RunAt::DocumentStart)
        } else if str_eq(name, "DocumentEnd") {
            Some(RunAt::DocumentEnd)
        } else if str_eq(name, "DocumentIdle") {
            Some(RunAt::DocumentIdle)
        } else {
            None
        }
    }

    /// The text that the extension manifest uses for this variant.
    pub fn manifest_text(&self) -> (r: String)
        ensures
            r@ == run_at_manifest_text(*self),
    {
        match self {
            RunAt::DocumentStart => String::from_str("document_start"),
            RunAt::DocumentEnd => String::from_str("document_end"),
            RunAt::DocumentIdle => String::from_str("document_idle"),
        }
    }
}

/// A function registered as a listener of a browser event.
#[derive(Debug)]
pub struct EventHandler {
    pub fn_name: String,
    pub namespace: String,
    pub event_name: String,
}

/// A function run as a content script in matching pages.
#[derive(Debug)]
pub struct ContentScript {
    pub fn_name: String,
    pub matches: Vec<String>,
    pub run_at: Option<String>,
    pub all_frames: Option<bool>,
    pub css: Vec<String>,
}

/// Everything the build needs to know about an extension.
#[derive(Debug)]
pub struct ExtensionMetadata {
    pub name: Option<String>,
    pub version: Option<String>,
    pub description: Option<String>,
    pub permissions: Vec<String>,
    pub extra_manifest: Option<String>,
    pub background_functions: Vec<String>,
    pub event_handlers: Vec<EventHandler>,
    pub has_popup: bool,
    pub has_options_page: bool,
    pub content_scripts: Vec<ContentScript>,
}

/// Metadata with nothing declared.
pub open spec fn empty_metadata(m: ExtensionMetadata) -> bool {
    &&& m.name is None
    &&& m.version is None
    &&& m.description is None
    &&& m.permissions@.len() == 0
    &&& m.extra_manifest is None
    &&& m.background_functions@.len() == 0
    &&& m.event_handlers@.len() == 0
    &&& !m.has_popup
    &&& !m.has_options_page
    &&& m.content_scripts@.len() == 0
}

impl Default for ExtensionMetadata {
    fn default() -> (r: Self)
        ensures
            empty_metadata(r),
    {
        ExtensionMetadata {
            name: None,
            version: None,
            description: None,
            permissions: Vec::new(),
            extra_manifest: None,
            background_functions: Vec::new(),
            event_handlers: Vec::new(),
            has_popup: false,
            has_options_page: false,
            content_scripts: Vec::new(),
        }
    }
}

/// The texts of a list of strings.
pub open spec fn texts_of(v: Seq<String>) -> Seq<Seq<char>> {
    v.map_values(|s: String| s@)
}

/// The text of an optional string.
pub open spec fn opt_text_of(o: Option<String>) -> Option<Seq<char>> {
    match o {
        Some(s) => Some(s@),
        None => None,
    }
}

/// [`EventHandler`] with texts as character sequences.
pub struct EventHandlerView {
    pub fn_name: Seq<char>,
    pub namespace: Seq<char>,
    pub event_name: Seq<char>,
}

impl View for EventHandler {
    type V = EventHandlerView;

    open spec fn view(&self) -> EventHandlerView {
        EventHandlerView { fn_name: self.fn_name@, namespace: self.namespace@, event_name: self.event_name@ }
    }
}

/// [`ContentScript`] with texts as character sequences.
pub struct ContentScriptView {
    pub fn_name: Seq<char>,
    pub matches: Seq<Seq<char>>,
    pub run_at: Option<Seq<char>>,
    pub all_frames: Option<bool>,
    pub css: Seq<Seq<char>>,
}

impl View for ContentScript {
    type V = ContentScriptView;

    open spec fn view(&self) -> ContentScriptView {
        ContentScriptView {
            fn_name: self.fn_name@,
            matches: texts_of(self.matches@),
            run_at: opt_text_of(self.run_at),
            all_frames: self.all_frames,
            css: texts_of(self.css@),
        }
    }
}

/// [`ExtensionMetadata`] with texts as character sequences.
pub struct MetadataView {
    pub name: Option<Seq<char>>,
    pub version: Option<Seq<char>>,
    pub description: Option<Seq<char>>,
    pub permissions: Seq<Seq<char>>,
    pub extra_manifest: Option<Seq<char>>,
    pub background_functions: Seq<Seq<char>>,
    pub event_handlers: Seq<EventHandlerView>,
    pub has_popup: bool,
    pub has_options_page: bool,
    pub content_scripts: Seq<ContentScriptView>,
}

impl View for ExtensionMetadata {
    type V = MetadataView;

    open spec fn view(&self) -> MetadataView {
        MetadataView {
            name: opt_text_of(self.name),
            version: opt_text_of(self.version),
            description: opt_text_of(self.description),
            permissions: texts_of(self.permissions@),
            extra_manifest: opt_text_of(self.extra_manifest),
            background_functions: texts_of(self.background_functions@),
            event_handlers: self.event_handlers@.map_values(|h: EventHandler| h@),
            has_popup: self.has_popup,
            has_options_page: self.has_options_page,
            content_scripts: self.content_scripts@.map_values(|c: ContentScript| c@),
        }
    }
}

} // verus!
