use std::collections::HashMap;

use atlas_spark::json::{Json, Member};
use atlas_spark::mock::{MockTagCompiler, MockToolServices};
use atlas_spark::tool_grammar::{FunctionDefinition, GrammarEngine, GrammarError, ToolDefinition};
use atlas_spark::tool_stream::{
    handle_complete_tool_call, handle_tool_call_delta, handle_tool_call_end, handle_tool_call_start, Chunk,
    FunctionCall, StreamCtx, StreamState, ToolCall,
};

fn text(s: &str) -> Json {
    Json::Text(s.to_string())
}

fn object(members: Vec<(&str, Json)>) -> Json {
    Json::Object(members.into_iter().map(|(k, v)| Member { key: k.to_string(), value: v }).collect())
}

fn tool(name: &str, parameters: Option<Json>) -> ToolDefinition {
    ToolDefinition {
        tool_type: "function".to_string(),
        function: FunctionDefinition { name: name.to_string(), description: None, parameters },
    }
}

fn schema(property: &str) -> Json {
    object(vec![
        ("type", text("object")),
        ("properties", object(vec![(property, object(vec![("type", text("string"))]))])),
        ("required", Json::Array(vec![text(property)])),
    ])
}

fn engine(knows_xml: bool) -> GrammarEngine<MockTagCompiler> {
    GrammarEngine { compiler: MockTagCompiler::new(knows_xml) }
}

#[test]
fn test_multiple_tools_hermes() {
    let mut engine = engine(true);
    let tools = vec![
        ToolDefinition {
            tool_type: "function".to_string(),
            function: FunctionDefinition {
                name: "get_weather".to_string(),
                description: Some("Get weather".to_string()),
                parameters: Some(schema("location")),
            },
        },
        ToolDefinition {
            tool_type: "function".to_string(),
            function: FunctionDefinition {
                name: "search".to_string(),
                description: Some("Search the web".to_string()),
                parameters: Some(schema("query")),
            },
        },
    ];

    let result = engine.compile_hermes_tool_grammar(&tools, false);
    assert!(
        result.is_ok(),
        "Multi-tool Hermes compilation failed: {:?}",
        result.as_ref().err().unwrap()
    );
    let request = &engine.compiler.requests[0];
    assert_eq!(request.triggers, vec!["<tool_call>{\"name\":\""]);
    assert_eq!(
        request.frames,
        vec![
            (
                "<tool_call>{\"name\":\"get_weather\",\"arguments\":".to_string(),
                "}</tool_call>".to_string()
            ),
            ("<tool_call>{\"name\":\"search\",\"arguments\":".to_string(), "}</tool_call>".to_string()),
        ]
    );
    assert!(request.at_least_one && request.stop_after_first);
}

#[test]
fn triggers_leave_the_choice_to_the_model() {
    let mut e = engine(true);
    e.compile_hermes_tool_grammar(&[tool("f", None)], true).unwrap();
    assert!(!e.compiler.requests[0].at_least_one);
    assert!(!e.compiler.requests[0].stop_after_first);
}

#[test]
fn every_format_frames_the_name() {
    let one = [tool("f", Some(schema("a")))];
    let mut e = engine(true);
    e.compile_bare_json_tool_grammar(&one, false).unwrap();
    e.compile_qwen3_coder_tool_grammar(&one, false).unwrap();
    e.compile_gemma4_tool_grammar(&one, false).unwrap();
    e.compile_minimax_xml_tool_grammar(&one, false).unwrap();
    let framed: Vec<(&str, &str, &str)> = e
        .compiler
        .requests
        .iter()
        .map(|r| (r.triggers[0].as_str(), r.frames[0].0.as_str(), r.frames[0].1.as_str()))
        .collect();
    assert_eq!(
        framed,
        vec![
            ("{\"name\":\"", "{\"name\":\"f\",\"arguments\":", "}"),
            (
                "<tool_call>\n<function=f",
                "<tool_call>\n<function=f>\n",
                "\n</function>\n</tool_call>"
            ),
            ("<|tool_call>call:", "<|tool_call>call:f", "<tool_call|>"),
            (
                "<minimax:tool_call>",
                "<minimax:tool_call>\n<invoke name=\"f\">",
                "</invoke>\n</minimax:tool_call>"
            ),
        ]
    );
    for (trigger, begin, _) in framed {
        assert!(begin.starts_with(trigger));
    }
}

#[test]
fn function_triggers_come_once() {
    let mut e = engine(true);
    let tools = [tool("f", None), tool("g", None), tool("f", None)];
    e.compile_qwen3_coder_tool_grammar(&tools, false).unwrap();
    assert_eq!(
        e.compiler.requests[0].triggers,
        vec!["<tool_call>\n<function=f", "<tool_call>\n<function=g"]
    );
    assert_eq!(e.compiler.requests[0].frames.len(), 3);
}

#[test]
fn xml_parameters_fall_back_to_json() {
    let mut e = engine(false);
    assert!(e.compile_qwen3_coder_tool_grammar(&[tool("f", None)], false).is_ok());
    assert_eq!(e.compiler.requests.len(), 2);
    assert_eq!(e.compiler.requests[0].frames, e.compiler.requests[1].frames);
}

#[test]
fn tools_without_a_usable_schema_are_left_out() {
    let mut e = engine(true);
    let tools = [
        tool("unusable", Some(Json::Null)),
        tool("silent", Some(object(vec![("x", text("y"))]))),
        tool("good", Some(schema("a"))),
    ];
    e.compile_gemma4_tool_grammar(&tools, false).unwrap();
    assert_eq!(e.compiler.requests[0].frames.len(), 1);
    e.compile_minimax_xml_tool_grammar(&tools, false).unwrap();
    assert_eq!(e.compiler.requests[1].frames.len(), 2, "free arguments need no description");
    assert!(matches!(e.compile_hermes_tool_grammar(&tools[..2], false), Err(GrammarError::NoTools)));
    assert!(matches!(e.compile_bare_json_tool_grammar(&[], false), Err(GrammarError::NoTools)));
    assert!(matches!(e.compile_minimax_xml_tool_grammar(&tools[..1], false), Err(GrammarError::NoTools)));
    assert_eq!(e.compiler.requests.len(), 2);
}

fn stream() -> StreamState {
    StreamState {
        stop_string_triggered: false,
        tool_calls_emitted_count: 0,
        streaming_tool_args: HashMap::new(),
    }
}

fn ctx() -> StreamCtx {
    StreamCtx { normalize_paths: false, failures_known: true }
}

fn call() -> ToolCall {
    ToolCall {
        id: "call_1".to_string(),
        call_type: "function".to_string(),
        function: FunctionCall { name: "f".to_string(), arguments: "{\"a\":1}".to_string() },
    }
}

fn shown(chunks: &[Chunk]) -> Vec<String> {
    chunks.iter().map(|c| format!("{:?}", c)).collect()
}

fn header(index: usize, id: &str, name: &str) -> String {
    format!(
        "{:?}",
        Chunk::ToolCallStart {
            index,
            id: id.to_string(),
            call_type: "function".to_string(),
            name: name.to_string()
        }
    )
}

fn piece(index: usize, s: &str) -> String {
    format!("{:?}", Chunk::ToolCallArgs { index, text: s.to_string() })
}

fn content(s: &str) -> String {
    format!("{:?}", Chunk::Content { text: s.to_string() })
}

#[test]
fn whole_call_goes_out_behind_its_content() {
    let mut s = MockToolServices::new(5);
    s.held_back = "tail".to_string();
    let mut state = stream();
    let mut chunks: Vec<Chunk> = Vec::new();
    handle_complete_tool_call(&mut state, &ctx(), &mut call(), 2, &mut chunks, &mut s);
    assert_eq!(shown(&chunks), vec![content("tail"), header(2, "call_1", "f"), piece(2, "{\"a\":1}")]);
    assert_eq!(state.tool_calls_emitted_count, 1);
    assert!(!state.stop_string_triggered);
}

#[test]
fn last_allowed_call_ends_the_response() {
    let mut s = MockToolServices::new(1);
    let mut state = stream();
    let mut chunks: Vec<Chunk> = Vec::new();
    handle_complete_tool_call(&mut state, &ctx(), &mut call(), 0, &mut chunks, &mut s);
    assert!(state.stop_string_triggered);
    assert_eq!(chunks.len(), 2);
}

#[test]
fn rejected_call_is_replaced_by_its_reason() {
    let mut s = MockToolServices::new(5);
    s.problem = Some("no such tool".to_string());
    let mut state = stream();
    let mut chunks: Vec<Chunk> = Vec::new();
    handle_complete_tool_call(&mut state, &ctx(), &mut call(), 0, &mut chunks, &mut s);
    assert_eq!(shown(&chunks), vec![content("[atlas] Tool call rejected: no such tool")]);
    assert!(state.stop_string_triggered);
    assert_eq!(state.tool_calls_emitted_count, 0);
}

#[test]
fn repeated_call_ends_the_response_in_silence() {
    let mut s = MockToolServices::new(5);
    s.repeated = true;
    let mut state = stream();
    let mut chunks: Vec<Chunk> = Vec::new();
    handle_complete_tool_call(&mut state, &ctx(), &mut call(), 0, &mut chunks, &mut s);
    assert!(chunks.is_empty());
    assert!(state.stop_string_triggered);
}

#[test]
fn paths_are_put_right_where_a_directory_is_known() {
    let mut s = MockToolServices::new(5);
    s.normalized_arguments = Some("{\"path\":\"/w/x\"}".to_string());
    let mut state = stream();
    let mut chunks: Vec<Chunk> = Vec::new();
    let known = StreamCtx { normalize_paths: true, failures_known: false };
    handle_complete_tool_call(&mut state, &known, &mut call(), 0, &mut chunks, &mut s);
    assert_eq!(shown(&chunks)[1], piece(0, "{\"path\":\"/w/x\"}"));
    let mut chunks: Vec<Chunk> = Vec::new();
    handle_complete_tool_call(&mut state, &ctx(), &mut call(), 0, &mut chunks, &mut s);
    assert_eq!(shown(&chunks)[1], piece(0, "{\"a\":1}"));
}

#[test]
fn streamed_pieces_are_sent_and_collected() {
    let mut s = MockToolServices::new(5);
    let mut state = stream();
    let mut chunks: Vec<Chunk> = Vec::new();
    handle_tool_call_start(&mut state, "id".to_string(), "f".to_string(), 0, &mut chunks, &mut s);
    handle_tool_call_delta(&mut state, "{\"a\"".to_string(), 0, &mut chunks);
    handle_tool_call_delta(&mut state, String::new(), 0, &mut chunks);
    handle_tool_call_delta(&mut state, ":1}".to_string(), 0, &mut chunks);
    handle_tool_call_delta(&mut state, "x".to_string(), 7, &mut chunks);
    assert_eq!(
        shown(&chunks),
        vec![header(0, "id", "f"), piece(0, "{\"a\""), piece(0, ":1}"), piece(7, "x")]
    );
    assert_eq!(state.streaming_tool_args[&0], ("f".to_string(), "{\"a\":1}".to_string()));
    assert_eq!(state.streaming_tool_args.len(), 1);
    assert_eq!(state.tool_calls_emitted_count, 1);
    handle_tool_call_end(&mut state, &ctx(), 0, &mut s);
    assert!(state.streaming_tool_args.is_empty());
    assert!(!state.stop_string_triggered);
}

#[test]
fn streamed_call_that_repeats_or_failed_ends_the_response() {
    let start = |s: &mut MockToolServices| {
        let mut state = stream();
        let mut chunks: Vec<Chunk> = Vec::new();
        handle_tool_call_start(&mut state, "id".to_string(), "f".to_string(), 0, &mut chunks, s);
        state
    };
    let mut s = MockToolServices::new(5);
    s.repeated_within = true;
    let mut state = start(&mut s);
    handle_tool_call_end(&mut state, &ctx(), 0, &mut s);
    assert!(state.stop_string_triggered);

    let mut s = MockToolServices::new(5);
    s.failed_before = true;
    let mut state = start(&mut s);
    handle_tool_call_end(&mut state, &StreamCtx { normalize_paths: false, failures_known: false }, 0, &mut s);
    assert!(!state.stop_string_triggered, "failures are not known");
    let mut state = start(&mut s);
    handle_tool_call_end(&mut state, &ctx(), 3, &mut s);
    assert!(!state.stop_string_triggered, "no such call");
    handle_tool_call_end(&mut state, &ctx(), 0, &mut s);
    assert!(state.stop_string_triggered);
}
