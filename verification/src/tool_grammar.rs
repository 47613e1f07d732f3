//! Grammars that constrain a model's tool calls.
//!
//! A tool-call format frames each call: a fixed beginning with the tool's name,
//! the arguments, and a fixed end. The frames of all usable tools are compiled
//! together, with the texts that trigger them. Where a call is required, the
//! grammar asks for at least one and stops after the first.

use vstd::prelude::*;

use crate::json::{field, json_view, Json, JsonView, Member};
use crate::text::{join, str_is};

verus! {

/// Why there is no grammar.
#[derive(Debug)]
pub enum GrammarError {
    /// No tool, or none whose schema can be used.
    NoTools,
    /// The compiler refused.
    Compile { message: String },
}

/// What a tool is called and takes.
#[derive(Debug)]
pub struct FunctionDefinition {
    pub name: String,
    pub description: Option<String>,
    /// The schema of the arguments.
    pub parameters: Option<Json>,
}

#[derive(Debug)]
pub struct ToolDefinition {
    pub tool_type: String,
    pub function: FunctionDefinition,
}

/// What may stand between beginning and end of a frame.
#[derive(Debug)]
pub enum TagContent {
    JsonSchema(Json),
    QwenXmlParameter(Json),
    AnyText,
}

/// One frame.
#[derive(Debug)]
pub struct TagEntry {
    pub begin: String,
    pub content: TagContent,
    pub end: String,
}

/// The content of a frame by its characters.
#[verifier::ext_equal]
pub enum ContentView {
    JsonSchema(JsonView),
    QwenXmlParameter(JsonView),
    AnyText,
}

impl View for TagContent {
    type V = ContentView;

    open spec fn view(&self) -> ContentView {
        match *self {
            TagContent::JsonSchema(s) => ContentView::JsonSchema(s@),
            TagContent::QwenXmlParameter(s) => ContentView::QwenXmlParameter(s@),
            TagContent::AnyText => ContentView::AnyText,
        }
    }
}

/// A frame by its characters.
#[verifier::ext_equal]
pub struct TagView {
    pub begin: Seq<char>,
    pub content: ContentView,
    pub end: Seq<char>,
}

impl View for TagEntry {
    type V = TagView;

    open spec fn view(&self) -> TagView {
        TagView { begin: self.begin@, content: self.content@, end: self.end@ }
    }
}

pub open spec fn tag_views(tags: Seq<TagEntry>) -> Seq<TagView> {
    Seq::new(tags.len(), |i: int| tags[i]@)
}

pub open spec fn texts_of(v: Seq<String>) -> Seq<Seq<char>> {
    Seq::new(v.len(), |i: int| v[i]@)
}

/// A request to the compiler, and its answer.
#[verifier::ext_equal]
pub struct CompileEvent<T> {
    pub triggers: Seq<Seq<char>>,
    pub tags: Seq<TagView>,
    pub at_least_one: bool,
    pub stop_after_first: bool,
    pub answer: Result<T, GrammarError>,
}

/// The grammar compiler, and the schema rewriting that goes before it.
///
/// The rewriting is a function of the schema. In what it compiles to, a compiler
/// is free; it owes a trace of what it was asked and answered.
pub trait TagCompiler<T>: Sized {
    spec fn trace(&self) -> Seq<CompileEvent<T>>;

    /// What a schema is without the parts that no grammar can express; nothing
    /// where the whole schema is beyond it.
    spec fn sanitized(&self, schema: JsonView) -> Option<JsonView>;

    /// The schema with required texts kept from being empty.
    spec fn with_min_length(&self, schema: JsonView) -> JsonView;

    fn sanitize_schema_for_grammar(&self, schema: &Json) -> (r: Option<Json>)
        ensures
            match r {
                Some(s) => self.sanitized(schema@) == Some(s@),
                None => self.sanitized(schema@) is None,
            },
    ;

    fn enforce_min_length_on_required_strings(&self, schema: &Json) -> (r: Json)
        ensures
            r@ == self.with_min_length(schema@),
    ;

    fn compile_structural_tag_raw(
        &mut self,
        triggers: &Vec<String>,
        tags: &Vec<TagEntry>,
        at_least_one: bool,
        stop_after_first: bool,
    ) -> (r: Result<T, GrammarError>)
        ensures
            final(self).trace() == old(self).trace().push(
                (CompileEvent {
                    triggers: texts_of(triggers@),
                    tags: tag_views(tags@),
                    at_least_one,
                    stop_after_first,
                    answer: r,
                }),
            ),
    ;
}

/// Compiles tool-call grammars.
pub struct GrammarEngine<E> {
    pub compiler: E,
}

// ── formats ──
/// How a format frames a call.
#[derive(Clone, Copy, PartialEq, Eq, Structural, Debug)]
pub enum ToolFormat {
    Hermes,
    BareJson,
    Qwen3Coder,
    Gemma4,
    MinimaxXml,
}

/// What stands before the name.
pub open spec fn begin_before(f: ToolFormat) -> Seq<char> {
    match f {
        ToolFormat::Hermes => "<tool_call>{\"name\":\""@,
        ToolFormat::BareJson => "{\"name\":\""@,
        ToolFormat::Qwen3Coder => "<tool_call>\n<function="@,
        ToolFormat::Gemma4 => "<|tool_call>call:"@,
        ToolFormat::MinimaxXml => "<minimax:tool_call>\n<invoke name=\""@,
    }
}

/// What stands behind the name, up to the arguments.
pub open spec fn begin_after(f: ToolFormat) -> Seq<char> {
    match f {
        ToolFormat::Hermes => "\",\"arguments\":"@,
        ToolFormat::BareJson => "\",\"arguments\":"@,
        ToolFormat::Qwen3Coder => ">\n"@,
        ToolFormat::Gemma4 => ""@,
        ToolFormat::MinimaxXml => "\">"@,
    }
}

pub open spec fn end_of(f: ToolFormat) -> Seq<char> {
    match f {
        ToolFormat::Hermes => "}</tool_call>"@,
        ToolFormat::BareJson => "}"@,
        ToolFormat::Qwen3Coder => "\n</function>\n</tool_call>"@,
        ToolFormat::Gemma4 => "<tool_call|>"@,
        ToolFormat::MinimaxXml => "</invoke>\n</minimax:tool_call>"@,
    }
}

fn before_name(f: ToolFormat) -> (r: &'static str)
    ensures
        r@ == begin_before(f),
{
    match f {
        ToolFormat::Hermes => "<tool_call>{\"name\":\"",
        ToolFormat::BareJson => "{\"name\":\"",
        ToolFormat::Qwen3Coder => "<tool_call>\n<function=",
        ToolFormat::Gemma4 => "<|tool_call>call:",
        ToolFormat::MinimaxXml => "<minimax:tool_call>\n<invoke name=\"",
    }
}

fn after_name(f: ToolFormat) -> (r: &'static str)
    ensures
        r@ == begin_after(f),
{
    match f {
        ToolFormat::Hermes => "\",\"arguments\":",
        ToolFormat::BareJson => "\",\"arguments\":",
        ToolFormat::Qwen3Coder => ">\n",
        ToolFormat::Gemma4 => "",
        ToolFormat::MinimaxXml => "\">",
    }
}

fn frame_end(f: ToolFormat) -> (r: &'static str)
    ensures
        r@ == end_of(f),
{
    match f {
        ToolFormat::Hermes => "}</tool_call>",
        ToolFormat::BareJson => "}",
        ToolFormat::Qwen3Coder => "\n</function>\n</tool_call>",
        ToolFormat::Gemma4 => "<tool_call|>",
        ToolFormat::MinimaxXml => "</invoke>\n</minimax:tool_call>",
    }
}

// ── usable tools ──
/// The schema of a tool that names none: an object without properties.
pub open spec fn default_view() -> JsonView {
    JsonView::Object(
        seq![
            ("type"@, JsonView::Text("object"@)),
            ("properties"@, JsonView::Object(Seq::<(Seq<char>, JsonView)>::empty())),
        ],
    )
}

fn default_schema() -> (r: Json)
    ensures
        r@ == default_view(),
{
    let none: Vec<Member> = Vec::new();
    let inner = Json::Object(none);
    assert(inner@->Object_0 =~= Seq::<(Seq<char>, JsonView)>::empty());
    let ty = Member { key: "type".to_owned(), value: Json::Text("object".to_owned()) };
    let properties = Member { key: "properties".to_owned(), value: inner };
    let r = Json::Object(vec![ty, properties]);
    proof {
        reveal_with_fuel(json_view, 3);
        assert(r@->Object_0 =~= default_view()->Object_0);
    }
    r
}

/// The schema that a tool starts from.
pub open spec fn raw_schema(tool: ToolDefinition) -> JsonView {
    match tool.function.parameters {
        Some(p) => p@,
        None => default_view(),
    }
}

/// A schema that says what it describes.
pub open spec fn describes(s: JsonView) -> bool {
    field(s, "properties"@) is Some || field(s, "type"@) is Some
}

/// The content of a tool's frame; nothing where its schema cannot be used. The
/// format that leaves its arguments free needs no more than a schema that can be
/// rewritten.
pub open spec fn content_for<T, E: TagCompiler<T>>(engine: E, f: ToolFormat, raw: JsonView) -> Option<ContentView> {
    match engine.sanitized(raw) {
        None => None,
        Some(s) => if f == ToolFormat::MinimaxXml {
            Some(ContentView::AnyText)
        } else if !describes(s) {
            None
        } else if f == ToolFormat::Qwen3Coder {
            Some(ContentView::QwenXmlParameter(engine.with_min_length(s)))
        } else {
            Some(ContentView::JsonSchema(engine.with_min_length(s)))
        },
    }
}

pub open spec fn frame(f: ToolFormat, name: Seq<char>, content: ContentView) -> TagView {
    TagView { begin: begin_before(f) + name + begin_after(f), content, end: end_of(f) }
}

/// The frames of the usable tools, in order.
pub open spec fn frames<T, E: TagCompiler<T>>(
    engine: E,
    f: ToolFormat,
    tools: Seq<ToolDefinition>,
) -> Seq<TagView>
    decreases tools.len(),
{
    if tools.len() == 0 {
        Seq::empty()
    } else {
        let rest = frames::<T, E>(engine, f, tools.drop_last());
        match content_for::<T, E>(engine, f, raw_schema(tools.last())) {
            Some(content) => rest.push(frame(f, tools.last().function.name@, content)),
            None => rest,
        }
    }
}

/// The names of the usable tools, in order.
pub open spec fn usable_names<T, E: TagCompiler<T>>(
    engine: E,
    f: ToolFormat,
    tools: Seq<ToolDefinition>,
) -> Seq<Seq<char>>
    decreases tools.len(),
{
    if tools.len() == 0 {
        Seq::empty()
    } else {
        let rest = usable_names::<T, E>(engine, f, tools.drop_last());
        match content_for::<T, E>(engine, f, raw_schema(tools.last())) {
            Some(_) => rest.push(tools.last().function.name@),
            None => rest,
        }
    }
}

/// The same frames with plain JSON arguments.
pub open spec fn plain_frames(tags: Seq<TagView>) -> Seq<TagView> {
    Seq::new(tags.len(), |i: int| TagView { content: plain(tags[i].content), ..tags[i] })
}

pub open spec fn plain(c: ContentView) -> ContentView {
    match c {
        ContentView::QwenXmlParameter(s) => ContentView::JsonSchema(s),
        _ => c,
    }
}

// ── triggers ──
/// The texts that trigger a frame. They are short where every frame starts
/// alike, so that the frame holds from its first words on.
pub open spec fn triggers_for(f: ToolFormat, names: Seq<Seq<char>>) -> Seq<Seq<char>> {
    match f {
        ToolFormat::Hermes => seq!["<tool_call>{\"name\":\""@],
        ToolFormat::BareJson => seq!["{\"name\":\""@],
        ToolFormat::Qwen3Coder => function_triggers(names),
        ToolFormat::Gemma4 => seq!["<|tool_call>call:"@],
        ToolFormat::MinimaxXml => seq!["<minimax:tool_call>"@],
    }
}

/// One trigger per name, each name once.
pub open spec fn function_triggers(names: Seq<Seq<char>>) -> Seq<Seq<char>>
    decreases names.len(),
{
    if names.len() == 0 {
        Seq::empty()
    } else {
        let rest = function_triggers(names.drop_last());
        let trigger = "<tool_call>\n<function="@ + names.last();
        if rest.contains(trigger) {
            rest
        } else {
            rest.push(trigger)
        }
    }
}

fn has_trigger(v: &Vec<String>, s: &str) -> (r: bool)
    ensures
        r == texts_of(v@).contains(s@),
{
    let mut i: usize = 0;
    while i < v.len()
        invariant
            i <= v@.len(),
            forall|j: int| 0 <= j < i ==> #[trigger] v@[j]@ != s@,
        decreases v@.len() - i,
    {
        if str_is(v[i].as_str(), s) {
            assert(texts_of(v@)[i as int] == s@);
            return true;
        }
        i += 1;
    }
    assert(!texts_of(v@).contains(s@)) by {
        if texts_of(v@).contains(s@) {
            let j = choose|j: int| 0 <= j < texts_of(v@).len() && texts_of(v@)[j] == s@;
            assert(v@[j]@ == s@);
        }
    }
    false
}

fn make_triggers(f: ToolFormat, names: &Vec<String>) -> (r: Vec<String>)
    ensures
        texts_of(r@) == triggers_for(f, texts_of(names@)),
{
    let mut r: Vec<String> = Vec::new();
    match f {
        ToolFormat::Qwen3Coder => {
            let ghost all = texts_of(names@);
            let mut i: usize = 0;
            assert(all.take(0) =~= Seq::empty());
            assert(texts_of(r@) =~= Seq::empty());
            while i < names.len()
                invariant
                    i <= names@.len(),
                    all == texts_of(names@),
                    texts_of(r@) == function_triggers(all.take(i as int)),
                decreases names@.len() - i,
            {
                let trigger = join("<tool_call>\n<function=", names[i].as_str());
                let ghost before = texts_of(r@);
                assert(all.take(i + 1).drop_last() =~= all.take(i as int));
                assert(all.take(i + 1).last() == names@[i as int]@);
                if !has_trigger(&r, trigger.as_str()) {
                    let ghost t = trigger@;
                    r.push(trigger);
                    assert(texts_of(r@) =~= before.push(t));
                }
                i += 1;
            }
            assert(all.take(i as int) =~= all);
        },
        ToolFormat::Hermes => {
            r.push("<tool_call>{\"name\":\"".to_owned());
        },
        ToolFormat::BareJson => {
            r.push("{\"name\":\"".to_owned());
        },
        ToolFormat::Gemma4 => {
            r.push("<|tool_call>call:".to_owned());
        },
        ToolFormat::MinimaxXml => {
            r.push("<minimax:tool_call>".to_owned());
        },
    }
    assert(f != ToolFormat::Qwen3Coder ==> texts_of(r@) =~= triggers_for(f, texts_of(names@)));
    r
}

/// What compiling the grammar of a format does and says.
pub open spec fn compiled<T, E: TagCompiler<T>>(
    f: ToolFormat,
    tools: Seq<ToolDefinition>,
    use_triggers: bool,
    before: E,
    after: E,
    r: Result<T, GrammarError>,
) -> bool {
    let tags = frames::<T, E>(before, f, tools);
    let names = usable_names::<T, E>(before, f, tools);
    if tags.len() == 0 {
        r == Err::<T, GrammarError>(GrammarError::NoTools) && after.trace() == before.trace()
    } else {
        exists|first: Result<T, GrammarError>|
            {
                let asked = before.trace().push(#[trigger] request(f, names, tags, use_triggers, first));
                if f == ToolFormat::Qwen3Coder && first is Err {
                    after.trace() == asked.push(request(f, names, plain_frames(tags), use_triggers, r))
                } else {
                    after.trace() == asked && r == first
                }
            }
    }
}

/// A request for a grammar of the tags. A call that is required is asked for
/// once and ends the grammar.
pub open spec fn request<T>(
    f: ToolFormat,
    names: Seq<Seq<char>>,
    tags: Seq<TagView>,
    use_triggers: bool,
    answer: Result<T, GrammarError>,
) -> CompileEvent<T> {
    CompileEvent {
        triggers: triggers_for(f, names),
        tags,
        at_least_one: !use_triggers,
        stop_after_first: !use_triggers,
        answer,
    }
}

fn has_field(s: &Json, key: &str) -> (r: bool)
    ensures
        r == (field(s@, key@) is Some),
{
    match s.get(key) {
        Some(_) => true,
        None => false,
    }
}

fn make_content<T, E: TagCompiler<T>>(compiler: &E, f: ToolFormat, raw: &Json) -> (r: Option<TagContent>)
    ensures
        match r {
            Some(c) => content_for::<T, E>(*compiler, f, raw@) == Some(c@),
            None => content_for::<T, E>(*compiler, f, raw@) is None,
        },
{
    let s = match compiler.sanitize_schema_for_grammar(raw) {
        Some(s) => s,
        None => {
            return None;
        },
    };
    if f == ToolFormat::MinimaxXml {
        return Some(TagContent::AnyText);
    }
    if !has_field(&s, "properties") && !has_field(&s, "type") {
        return None;
    }
    let schema = compiler.enforce_min_length_on_required_strings(&s);
    if f == ToolFormat::Qwen3Coder {
        Some(TagContent::QwenXmlParameter(schema))
    } else {
        Some(TagContent::JsonSchema(schema))
    }
}

/// Turns the arguments of all frames into plain JSON.
fn make_plain(tags: Vec<TagEntry>) -> (r: Vec<TagEntry>)
    ensures
        tag_views(r@) == plain_frames(tag_views(tags@)),
{
    let ghost all = tags@;
    let mut rest = tags;
    let mut back: Vec<TagEntry> = Vec::new();
    let n: usize = rest.len();
    while rest.len() > 0
        invariant
            n == all.len(),
            rest@.len() + back@.len() == n,
            rest@ == all.take(rest@.len() as int),
            forall|j: int|
                #![trigger back@[j]]
                0 <= j < back@.len() ==> back@[j]@ == (TagView {
                    content: plain(all[n - 1 - j]@.content),
                    ..all[n - 1 - j]@
                }),
        decreases rest@.len(),
    {
        let ghost before = rest@;
        match rest.pop() {
            Some(t) => {
                assert(before.last() == all[before.len() - 1]);
                let content = match t.content {
                    TagContent::QwenXmlParameter(s) => TagContent::JsonSchema(s),
                    c => c,
                };
                back.push(TagEntry { begin: t.begin, content, end: t.end });
                assert(rest@ =~= all.take(rest@.len() as int));
            },
            None => {},
        }
    }
    let mut r: Vec<TagEntry> = Vec::new();
    let ghost turned = back@;
    while back.len() > 0
        invariant
            n == all.len(),
            turned.len() == n,
            back@.len() + r@.len() == n,
            back@ == turned.take(back@.len() as int),
            forall|j: int|
                #![trigger turned[j]]
                0 <= j < n ==> turned[j]@ == (TagView {
                    content: plain(all[n - 1 - j]@.content),
                    ..all[n - 1 - j]@
                }),
            forall|j: int| #![trigger r@[j]] 0 <= j < r@.len() ==> r@[j] == turned[n - 1 - j],
        decreases back@.len(),
    {
        let ghost before = back@;
        match back.pop() {
            Some(t) => {
                assert(before.last() == turned[before.len() - 1]);
                r.push(t);
                assert(back@ =~= turned.take(back@.len() as int));
            },
            None => {},
        }
    }
    proof {
        assert forall|i: int| 0 <= i < n implies #[trigger] tag_views(r@)[i] == plain_frames(tag_views(all))[i] by {
            assert(r@[i] == turned[n - 1 - i]);
            assert(turned[n - 1 - i]@.begin == all[i]@.begin);
        }
        assert(tag_views(r@) =~= plain_frames(tag_views(all)));
    }
    r
}

impl<E> GrammarEngine<E> {
    fn compile_tools<T>(&mut self, f: ToolFormat, tools: &[ToolDefinition], use_triggers: bool) -> (r: Result<T, GrammarError>)
        where E: TagCompiler<T>,

        ensures
            compiled::<T, E>(
                f,
                tools@,
                use_triggers,
                old(self).compiler,
                final(self).compiler,
                r,
            ),
    {
        let ghost engine = self.compiler;
        let mut tags: Vec<TagEntry> = Vec::new();
        let mut names: Vec<String> = Vec::new();
        let mut i: usize = 0;
        assert(tools@.take(0) =~= Seq::empty());
        assert(tag_views(tags@) =~= Seq::empty());
        assert(texts_of(names@) =~= Seq::empty());
        while i < tools.len()
            invariant
                i <= tools@.len(),
                engine == self.compiler,
                engine == old(self).compiler,
                tag_views(tags@) == frames::<T, E>(engine, f, tools@.take(i as int)),
                texts_of(names@) == usable_names::<T, E>(engine, f, tools@.take(i as int)),
            decreases tools@.len() - i,
        {
            let tool = &tools[i];
            let fallback = default_schema();
            let raw: &Json = match &tool.function.parameters {
                Some(p) => p,
                None => &fallback,
            };
            let content = make_content::<T, E>(&self.compiler, f, raw);
            assert(tools@.take(i + 1).drop_last() =~= tools@.take(i as int));
            assert(tools@.take(i + 1).last() == *tool);
            assert(raw@ == raw_schema(*tool));
            let ghost tags_before = tag_views(tags@);
            let ghost names_before = texts_of(names@);
            if let Some(content) = content {
                let front = join(before_name(f), tool.function.name.as_str());
                let begin = join(front.as_str(), after_name(f));
                let ghost c = content@;
                tags.push(TagEntry { begin, content, end: frame_end(f).to_owned() });
                names.push(tool.function.name.clone());
                proof {
                    assert(tag_views(tags@) =~= tags_before.push(frame(f, tool.function.name@, c)));
                    assert(texts_of(names@) =~= names_before.push(tool.function.name@));
                }
            }
            i += 1;
        }
        assert(tools@.take(i as int) =~= tools@);
        if tags.len() == 0 {
            return Err(GrammarError::NoTools);
        }
        let triggers = make_triggers(f, &names);
        let first = self.compiler.compile_structural_tag_raw(&triggers, &tags, !use_triggers, !use_triggers);
        let ghost asked = self.compiler.trace();
        proof {
            let req = request(f, texts_of(names@), tag_views(tags@), use_triggers, first);
            assert(asked == engine.trace().push(req));
        }
        if f == ToolFormat::Qwen3Coder && first.is_err() {
            let fallback = make_plain(tags);
            return self.compiler.compile_structural_tag_raw(&triggers, &fallback, !use_triggers, !use_triggers);
        }
        first
    }

    /// Hermes calls: `<tool_call>{"name":"f","arguments":{..}}</tool_call>`.
    pub fn compile_hermes_tool_grammar<T>(&mut self, tools: &[ToolDefinition], use_triggers: bool) -> (r: Result<T, GrammarError>)
        where E: TagCompiler<T>,

        ensures
            compiled::<T, E>(
                ToolFormat::Hermes,
                tools@,
                use_triggers,
                old(self).compiler,
                final(self).compiler,
                r,
            ),
    {
        self.compile_tools(ToolFormat::Hermes, tools, use_triggers)
    }

    /// Bare calls: `{"name":"f","arguments":{..}}` and nothing around it.
    pub fn compile_bare_json_tool_grammar<T>(&mut self, tools: &[ToolDefinition], use_triggers: bool) -> (r: Result<T, GrammarError>)
        where E: TagCompiler<T>,

        ensures
            compiled::<T, E>(
                ToolFormat::BareJson,
                tools@,
                use_triggers,
                old(self).compiler,
                final(self).compiler,
                r,
            ),
    {
        self.compile_tools(ToolFormat::BareJson, tools, use_triggers)
    }

    /// Qwen3-Coder calls, with XML parameters between `<function=f>` and
    /// `</function>`. Where the compiler does not know XML parameters, the same
    /// frames are compiled with plain JSON arguments.
    pub fn compile_qwen3_coder_tool_grammar<T>(&mut self, tools: &[ToolDefinition], use_triggers: bool) -> (r: Result<T, GrammarError>)
        where E: TagCompiler<T>,

        ensures
            compiled::<T, E>(
                ToolFormat::Qwen3Coder,
                tools@,
                use_triggers,
                old(self).compiler,
                final(self).compiler,
                r,
            ),
    {
        self.compile_tools(ToolFormat::Qwen3Coder, tools, use_triggers)
    }

    /// Gemma-4 calls: `<|tool_call>call:f{..}<tool_call|>`.
    pub fn compile_gemma4_tool_grammar<T>(&mut self, tools: &[ToolDefinition], use_triggers: bool) -> (r: Result<T, GrammarError>)
        where E: TagCompiler<T>,

        ensures
            compiled::<T, E>(
                ToolFormat::Gemma4,
                tools@,
                use_triggers,
                old(self).compiler,
                final(self).compiler,
                r,
            ),
    {
        self.compile_tools(ToolFormat::Gemma4, tools, use_triggers)
    }

    /// MiniMax calls: an `<invoke name="f">` inside `<minimax:tool_call>`, with
    /// free text between.
    pub fn compile_minimax_xml_tool_grammar<T>(&mut self, tools: &[ToolDefinition], use_triggers: bool) -> (r: Result<T, GrammarError>)
        where E: TagCompiler<T>,

        ensures
            compiled::<T, E>(
                ToolFormat::MinimaxXml,
                tools@,
                use_triggers,
                old(self).compiler,
                final(self).compiler,
                r,
            ),
    {
        self.compile_tools(ToolFormat::MinimaxXml, tools, use_triggers)
    }
}

// ── laws ──
/// `text` begins with one of the triggers.
pub open spec fn triggered(triggers: Seq<Seq<char>>, text: Seq<char>) -> bool {
    exists|k: int| 0 <= k < triggers.len() && (#[trigger] triggers[k]).is_prefix_of(text)
}

/// Every frame begins with one of the triggers.
pub proof fn every_frame_has_its_trigger<T, E: TagCompiler<T>>(
    engine: E,
    f: ToolFormat,
    tools: Seq<ToolDefinition>,
    i: int,
)
    requires
        0 <= i < frames::<T, E>(engine, f, tools).len(),
    ensures
        triggered(
            triggers_for(f, usable_names::<T, E>(engine, f, tools)),
            frames::<T, E>(engine, f, tools)[i].begin,
        ),
{
    let names = usable_names::<T, E>(engine, f, tools);
    let tags = frames::<T, E>(engine, f, tools);
    let triggers = triggers_for(f, names);
    lemma_frames_follow_names::<T, E>(engine, f, tools);
    let begin = begin_before(f) + names[i] + begin_after(f);
    assert(tags[i].begin == begin);
    match f {
        ToolFormat::Qwen3Coder => {
            lemma_function_trigger(names, i);
            let t = "<tool_call>\n<function="@ + names[i];
            let k = choose|k: int| 0 <= k < triggers.len() && triggers[k] == t;
            assert(triggers[k].is_prefix_of(begin)) by {
                assert(t =~= begin.subrange(0, t.len() as int));
            }
        },
        ToolFormat::MinimaxXml => {
            reveal_strlit("<minimax:tool_call>");
            reveal_strlit("<minimax:tool_call>\n<invoke name=\"");
            let t = "<minimax:tool_call>"@;
            assert(t =~= begin.subrange(0, t.len() as int));
            assert(triggers[0].is_prefix_of(begin));
        },
        _ => {
            let t = begin_before(f);
            assert(t =~= begin.subrange(0, t.len() as int));
            assert(triggers[0].is_prefix_of(begin));
        },
    }
}

proof fn lemma_frames_follow_names<T, E: TagCompiler<T>>(
    engine: E,
    f: ToolFormat,
    tools: Seq<ToolDefinition>,
)
    ensures
        frames::<T, E>(engine, f, tools).len() == usable_names::<T, E>(engine, f, tools).len(),
        forall|i: int|
            0 <= i < frames::<T, E>(engine, f, tools).len() ==> (#[trigger] frames::<T, E>(
                engine,
                f,
                tools,
            )[i]).begin == begin_before(f) + usable_names::<T, E>(engine, f, tools)[i] + begin_after(f),
    decreases tools.len(),
{
    if tools.len() > 0 {
        lemma_frames_follow_names::<T, E>(engine, f, tools.drop_last());
    }
}

proof fn lemma_function_trigger(names: Seq<Seq<char>>, i: int)
    requires
        0 <= i < names.len(),
    ensures
        function_triggers(names).contains("<tool_call>\n<function="@ + names[i]),
    decreases names.len(),
{
    let rest = function_triggers(names.drop_last());
    let last = "<tool_call>\n<function="@ + names.last();
    if i < names.len() - 1 {
        lemma_function_trigger(names.drop_last(), i);
        let t = "<tool_call>\n<function="@ + names[i];
        assert(names.drop_last()[i] == names[i]);
        let k = choose|k: int| 0 <= k < rest.len() && rest[k] == t;
        assert(function_triggers(names)[k] == t);
    } else if rest.contains(last) {
        assert(function_triggers(names).contains(last));
    } else {
        assert(function_triggers(names)[rest.len() as int] == last);
    }
}

/// The schema that a grammar takes for a tool: what is left of the tool's own
/// parameters, or of an object without properties where it names none; nothing
/// where nothing is left of them.
pub open spec fn tool_schema<T, E: TagCompiler<T>>(engine: E, tool: ToolDefinition) -> Option<JsonView> {
    engine.sanitized(
        match tool.function.parameters {
            Some(p) => p@,
            None => JsonView::Object(
                seq![
                    ("type"@, JsonView::Text("object"@)),
                    ("properties"@, JsonView::Object(Seq::<(Seq<char>, JsonView)>::empty())),
                ],
            ),
        },
    )
}

/// A grammar can be made for calls of the tool.
pub open spec fn callable<T, E: TagCompiler<T>>(engine: E, f: ToolFormat, tool: ToolDefinition) -> bool {
    match tool_schema::<T, E>(engine, tool) {
        None => false,
        Some(s) => f == ToolFormat::MinimaxXml || field(s, "properties"@) is Some || field(s, "type"@) is Some,
    }
}

/// How many tools can be called.
pub open spec fn callable_count<T, E: TagCompiler<T>>(engine: E, f: ToolFormat, tools: Seq<ToolDefinition>) -> int
    decreases tools.len(),
{
    if tools.len() == 0 {
        0
    } else {
        callable_count::<T, E>(engine, f, tools.drop_last()) + if callable::<T, E>(engine, f, tools.last()) {
            1int
        } else {
            0
        }
    }
}

/// `tag` frames the calls of `tool`: the words of the format around the tool's
/// name, and between them the tool's own schema. `xml` says whether the
/// parameters of a Qwen3-Coder call are XML.
pub open spec fn frames_tool<T, E: TagCompiler<T>>(
    engine: E,
    f: ToolFormat,
    tool: ToolDefinition,
    xml: bool,
    tag: TagView,
) -> bool {
    let name = tool.function.name@;
    let schema = engine.with_min_length(tool_schema::<T, E>(engine, tool)->0);
    match f {
        ToolFormat::Hermes => {
            &&& tag.begin == "<tool_call>{\"name\":\""@ + name + "\",\"arguments\":"@
            &&& tag.content == ContentView::JsonSchema(schema)
            &&& tag.end == "}</tool_call>"@
        },
        ToolFormat::BareJson => {
            &&& tag.begin == "{\"name\":\""@ + name + "\",\"arguments\":"@
            &&& tag.content == ContentView::JsonSchema(schema)
            &&& tag.end == "}"@
        },
        ToolFormat::Qwen3Coder => {
            &&& tag.begin == "<tool_call>\n<function="@ + name + ">\n"@
            &&& tag.content == if xml {
                ContentView::QwenXmlParameter(schema)
            } else {
                ContentView::JsonSchema(schema)
            }
            &&& tag.end == "\n</function>\n</tool_call>"@
        },
        ToolFormat::Gemma4 => {
            &&& tag.begin == "<|tool_call>call:"@ + name
            &&& tag.content == ContentView::JsonSchema(schema)
            &&& tag.end == "<tool_call|>"@
        },
        ToolFormat::MinimaxXml => {
            &&& tag.begin == "<minimax:tool_call>\n<invoke name=\""@ + name + "\">"@
            &&& tag.content == ContentView::AnyText
            &&& tag.end == "</invoke>\n</minimax:tool_call>"@
        },
    }
}

proof fn lemma_frames_are_the_tools<T, E: TagCompiler<T>>(engine: E, f: ToolFormat, tools: Seq<ToolDefinition>)
    ensures
        frames::<T, E>(engine, f, tools).len() == callable_count::<T, E>(engine, f, tools),
        usable_names::<T, E>(engine, f, tools).len() == callable_count::<T, E>(engine, f, tools),
        forall|i: int|
            0 <= i < tools.len() && callable::<T, E>(engine, f, #[trigger] tools[i]) ==> {
                let k = callable_count::<T, E>(engine, f, tools.take(i));
                &&& 0 <= k < frames::<T, E>(engine, f, tools).len()
                &&& frames_tool::<T, E>(engine, f, tools[i], true, frames::<T, E>(engine, f, tools)[k])
                &&& usable_names::<T, E>(engine, f, tools)[k] == tools[i].function.name@
            },
        forall|k: int|
            0 <= k < frames::<T, E>(engine, f, tools).len() ==> frames_some::<T, E>(
                engine,
                f,
                tools,
                true,
                #[trigger] frames::<T, E>(engine, f, tools)[k],
            ),
    decreases tools.len(),
{
    if tools.len() > 0 {
        let rest = tools.drop_last();
        let all = frames::<T, E>(engine, f, tools);
        let old_frames = frames::<T, E>(engine, f, rest);
        let last = tools.len() - 1;
        lemma_frames_are_the_tools::<T, E>(engine, f, rest);
        reveal_strlit("");
        assert("<|tool_call>call:"@ + tools.last().function.name@ + ""@ =~= "<|tool_call>call:"@
            + tools.last().function.name@);
        assert(tools.take(last) =~= rest);
        if callable::<T, E>(engine, f, tools.last()) {
            assert(frames_tool::<T, E>(engine, f, tools[last], true, all[old_frames.len() as int]));
            assert(callable::<T, E>(engine, f, tools[last]));
        }
        assert forall|i: int| 0 <= i < tools.len() && callable::<T, E>(engine, f, #[trigger] tools[i]) implies {
            let k = callable_count::<T, E>(engine, f, tools.take(i));
            &&& 0 <= k < all.len()
            &&& frames_tool::<T, E>(engine, f, tools[i], true, all[k])
            &&& usable_names::<T, E>(engine, f, tools)[k] == tools[i].function.name@
        } by {
            if i < last {
                assert(rest[i] == tools[i]);
                assert(rest.take(i) =~= tools.take(i));
            }
        }
        assert forall|k: int| 0 <= k < all.len() implies frames_some::<T, E>(
            engine,
            f,
            tools,
            true,
            #[trigger] all[k],
        ) by {
            if k < old_frames.len() {
                assert(all[k] == old_frames[k]);
                let i = choose|i: int|
                    0 <= i < rest.len() && callable::<T, E>(engine, f, #[trigger] rest[i]) && frames_tool::<T, E>(
                        engine,
                        f,
                        rest[i],
                        true,
                        old_frames[k],
                    );
                assert(tools[i] == rest[i]);
            } else {
                assert(frames_tool::<T, E>(engine, f, tools[last], true, all[k]));
            }
        }
    }
}

/// `tag` frames the calls of one of the tools.
pub open spec fn frames_some<T, E: TagCompiler<T>>(
    engine: E,
    f: ToolFormat,
    tools: Seq<ToolDefinition>,
    xml: bool,
    tag: TagView,
) -> bool {
    exists|i: int|
        0 <= i < tools.len() && callable::<T, E>(engine, f, #[trigger] tools[i]) && frames_tool::<T, E>(
            engine,
            f,
            tools[i],
            xml,
            tag,
        )
}

/// In whatever the compiler is asked, every frame carries the schema of its own
/// tool: of the frames in request `k`, the one for tool `i` has the tool's name
/// in the words of the format, and the tool's schema in between. Only the MiniMax
/// format leaves the arguments free. There is one frame for each tool that can
/// be called, in the order of the tools, and there are no others.
pub proof fn every_frame_carries_its_tools_schema<T, E: TagCompiler<T>>(
    f: ToolFormat,
    tools: Seq<ToolDefinition>,
    use_triggers: bool,
    before: E,
    after: E,
    r: Result<T, GrammarError>,
    k: int,
)
    requires
        compiled::<T, E>(f, tools, use_triggers, before, after, r),
        before.trace().len() <= k < after.trace().len(),
    ensures
        ({
            let tags = after.trace()[k].tags;
            let xml = k == before.trace().len();
            &&& tags.len() == callable_count::<T, E>(before, f, tools)
            &&& forall|i: int|
                0 <= i < tools.len() && callable::<T, E>(before, f, #[trigger] tools[i]) ==> {
                    let j = callable_count::<T, E>(before, f, tools.take(i));
                    0 <= j < tags.len() && frames_tool::<T, E>(before, f, tools[i], xml, tags[j])
                }
            &&& forall|j: int|
                0 <= j < tags.len() ==> frames_some::<T, E>(before, f, tools, xml, #[trigger] tags[j])
            &&& f != ToolFormat::MinimaxXml ==> forall|j: int|
                0 <= j < tags.len() ==> (#[trigger] tags[j]).content !is AnyText
        }),
{
    lemma_frames_are_the_tools::<T, E>(before, f, tools);
    let base = frames::<T, E>(before, f, tools);
    let tags = after.trace()[k].tags;
    let xml = k == before.trace().len();
    if !xml {
        assert(tags =~= plain_frames(base));
        assert(f == ToolFormat::Qwen3Coder);
    } else {
        assert(tags =~= base);
    }
    assert forall|i: int| 0 <= i < tools.len() && callable::<T, E>(before, f, #[trigger] tools[i]) implies {
        let j = callable_count::<T, E>(before, f, tools.take(i));
        0 <= j < tags.len() && frames_tool::<T, E>(before, f, tools[i], xml, tags[j])
    } by {
        let j = callable_count::<T, E>(before, f, tools.take(i));
        assert(frames_tool::<T, E>(before, f, tools[i], true, base[j]));
    }
    assert forall|j: int| 0 <= j < tags.len() implies frames_some::<T, E>(before, f, tools, xml, #[trigger] tags[j]) by {
        assert(frames_some::<T, E>(before, f, tools, true, base[j]));
        let i = choose|i: int|
            0 <= i < tools.len() && callable::<T, E>(before, f, #[trigger] tools[i]) && frames_tool::<T, E>(
                before,
                f,
                tools[i],
                true,
                base[j],
            );
        assert(frames_tool::<T, E>(before, f, tools[i], xml, tags[j]));
    }
}

/// The compiler is asked at all if some tool can be called, and then once; only
/// a refused Qwen3-Coder grammar is asked for a second time. A call is asked for,
/// and ends the grammar, exactly where it is required. What the compiler answered
/// last is the result.
pub proof fn compiler_is_asked_once<T, E: TagCompiler<T>>(
    f: ToolFormat,
    tools: Seq<ToolDefinition>,
    use_triggers: bool,
    before: E,
    after: E,
    r: Result<T, GrammarError>,
)
    requires
        compiled::<T, E>(f, tools, use_triggers, before, after, r),
    ensures
        before.trace().is_prefix_of(after.trace()),
        (exists|i: int| 0 <= i < tools.len() && callable::<T, E>(before, f, #[trigger] tools[i])) <==> after.trace().len()
            > before.trace().len(),
        after.trace().len() == before.trace().len() ==> r == Err::<T, GrammarError>(GrammarError::NoTools),
        after.trace().len() > before.trace().len() ==> after.trace().last().answer == r,
        after.trace().len() <= before.trace().len() + if f == ToolFormat::Qwen3Coder && after.trace()[before.trace().len() as int].answer is Err {
            2int
        } else {
            1int
        },
        f == ToolFormat::Qwen3Coder && after.trace().len() > before.trace().len() && after.trace()[before.trace().len() as int].answer is Err
            ==> after.trace().len() == before.trace().len() + 2,
        forall|k: int|
            before.trace().len() <= k < after.trace().len() ==> (#[trigger] after.trace()[k]).at_least_one
                == !use_triggers && after.trace()[k].stop_after_first == !use_triggers,
{
    lemma_frames_are_the_tools::<T, E>(before, f, tools);
    let old_trace = before.trace();
    let new_trace = after.trace();
    assert(old_trace =~= new_trace.subrange(0, old_trace.len() as int));
    if new_trace.len() > old_trace.len() {
        let tags = frames::<T, E>(before, f, tools);
        assert(frames_some::<T, E>(before, f, tools, true, tags[0]));
    }
}

/// The triggers that the compiler gets: the first words of the format, and for
/// Qwen3-Coder those words with the name of each tool that can be called, each
/// name once.
pub proof fn triggers_are_the_first_words<T, E: TagCompiler<T>>(
    f: ToolFormat,
    tools: Seq<ToolDefinition>,
    use_triggers: bool,
    before: E,
    after: E,
    r: Result<T, GrammarError>,
    k: int,
)
    requires
        compiled::<T, E>(f, tools, use_triggers, before, after, r),
        before.trace().len() <= k < after.trace().len(),
    ensures
        ({
            let triggers = after.trace()[k].triggers;
            match f {
                ToolFormat::Hermes => triggers == seq!["<tool_call>{\"name\":\""@],
                ToolFormat::BareJson => triggers == seq!["{\"name\":\""@],
                ToolFormat::Gemma4 => triggers == seq!["<|tool_call>call:"@],
                ToolFormat::MinimaxXml => triggers == seq!["<minimax:tool_call>"@],
                ToolFormat::Qwen3Coder => {
                    &&& triggers.no_duplicates()
                    &&& forall|i: int|
                        0 <= i < tools.len() && callable::<T, E>(before, f, #[trigger] tools[i]) ==> triggers.contains(
                            "<tool_call>\n<function="@ + tools[i].function.name@,
                        )
                    &&& forall|j: int| 0 <= j < triggers.len() ==> #[trigger] names_some::<T, E>(before, f, tools, triggers[j])
                },
            }
        }),
{
    lemma_frames_are_the_tools::<T, E>(before, f, tools);
    let names = usable_names::<T, E>(before, f, tools);
    let triggers = after.trace()[k].triggers;
    assert(triggers == triggers_for(f, names));
    if f == ToolFormat::Qwen3Coder {
        lemma_function_triggers(names);
        assert forall|i: int| 0 <= i < tools.len() && callable::<T, E>(before, f, #[trigger] tools[i]) implies triggers.contains(
            "<tool_call>\n<function="@ + tools[i].function.name@,
        ) by {
            let j = callable_count::<T, E>(before, f, tools.take(i));
            lemma_function_trigger(names, j);
        }
        assert forall|j: int| 0 <= j < triggers.len() implies #[trigger] names_some::<T, E>(
            before,
            f,
            tools,
            triggers[j],
        ) by {
            let n = choose|n: int| 0 <= n < names.len() && triggers[j] == "<tool_call>\n<function="@ + #[trigger] names[n];
            lemma_names_are_the_tools::<T, E>(before, f, tools, n);
        }
    }
}

/// `text` is the first words of a call of one of the tools.
pub open spec fn names_some<T, E: TagCompiler<T>>(
    engine: E,
    f: ToolFormat,
    tools: Seq<ToolDefinition>,
    text: Seq<char>,
) -> bool {
    exists|i: int|
        0 <= i < tools.len() && callable::<T, E>(engine, f, #[trigger] tools[i]) && text == "<tool_call>\n<function="@
            + tools[i].function.name@
}

proof fn lemma_names_are_the_tools<T, E: TagCompiler<T>>(engine: E, f: ToolFormat, tools: Seq<ToolDefinition>, n: int)
    requires
        0 <= n < usable_names::<T, E>(engine, f, tools).len(),
    ensures
        exists|i: int|
            0 <= i < tools.len() && callable::<T, E>(engine, f, #[trigger] tools[i]) && tools[i].function.name@
                == usable_names::<T, E>(engine, f, tools)[n],
    decreases tools.len(),
{
    let rest = tools.drop_last();
    let old_names = usable_names::<T, E>(engine, f, rest);
    if n < old_names.len() {
        lemma_names_are_the_tools::<T, E>(engine, f, rest, n);
        let i = choose|i: int|
            0 <= i < rest.len() && callable::<T, E>(engine, f, #[trigger] rest[i]) && rest[i].function.name@ == old_names[n];
        assert(tools[i] == rest[i]);
    } else {
        assert(callable::<T, E>(engine, f, tools[tools.len() - 1]));
    }
}

proof fn lemma_function_triggers(names: Seq<Seq<char>>)
    ensures
        function_triggers(names).no_duplicates(),
        forall|j: int|
            0 <= j < function_triggers(names).len() ==> exists|n: int|
                0 <= n < names.len() && #[trigger] function_triggers(names)[j] == "<tool_call>\n<function="@ + #[trigger] names[n],
    decreases names.len(),
{
    if names.len() > 0 {
        let rest = names.drop_last();
        lemma_function_triggers(rest);
        let all = function_triggers(names);
        assert forall|j: int| 0 <= j < all.len() implies exists|n: int|
            0 <= n < names.len() && #[trigger] all[j] == "<tool_call>\n<function="@ + #[trigger] names[n] by {
            if j < function_triggers(rest).len() {
                assert(all[j] == function_triggers(rest)[j]);
                let n = choose|n: int|
                    0 <= n < rest.len() && function_triggers(rest)[j] == "<tool_call>\n<function="@ + #[trigger] rest[n];
                assert(names[n] == rest[n]);
            } else {
                assert(all[j] == "<tool_call>\n<function="@ + names[names.len() - 1]);
            }
        }
    }
}

} // verus!
