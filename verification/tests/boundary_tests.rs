use quickjslib::codec::encode;
use quickjslib::engine::{EngineValue, ScriptEngine};
use quickjslib::from_error::{CaughtError, FromError};
use quickjslib::host_adapter::{
    decode_reply, into_args, num_args, pack_args, reply_action, HostReply, JavaFunction,
};
use quickjslib::java_log::{init_logger, LogLevel};
use quickjslib::proxy::JSJavaProxy;
use quickjslib::wasm_result::{pack_buffer_word, unpack_buffer_word, IntoWasmResult};

#[test]
fn adapter_spreads_argument_packs() {
    let pack = JSJavaProxy::Array(vec![JSJavaProxy::Int(1), JSJavaProxy::Int(2)]);
    assert_eq!(num_args(&pack), 2);
    assert_eq!(
        into_args(pack),
        vec![JSJavaProxy::Int(1), JSJavaProxy::Int(2)]
    );
    assert_eq!(num_args(&JSJavaProxy::Undefined), 0);
    assert_eq!(into_args(JSJavaProxy::Undefined), vec![]);
    assert_eq!(num_args(&JSJavaProxy::Int(5)), 1);
    assert_eq!(into_args(JSJavaProxy::Int(5)), vec![JSJavaProxy::Int(5)]);
}

#[test]
fn adapter_packs_arguments_as_one_array_buffer() {
    let f = JavaFunction::new(3, 4);
    assert_eq!(f.context, 3);
    assert_eq!(f.func, 4);
    let args = vec![JSJavaProxy::Int(1), JSJavaProxy::String("x".to_string())];
    let body = pack_args(args.clone());
    assert_eq!(body, encode(&JSJavaProxy::Array(args)));
}

#[test]
fn adapter_converts_arguments_before_packing() {
    // An engine-side compound argument crosses as a handle, not as a copy.
    let mut e = ScriptEngine::new();
    let arg = EngineValue::Array(vec![EngineValue::Int(1)]);
    let converted = match e.convert(&arg) {
        quickjslib::convert::Converted::Done(p) => p,
        other => panic!("expected a finished conversion, got {:?}", other),
    };
    let body = pack_args(vec![converted.clone()]);
    assert_eq!(body, encode(&JSJavaProxy::Array(vec![converted])));
}

#[test]
fn undecodable_reply_degrades_to_undefined() {
    assert_eq!(decode_reply(&[0xAB, 0xCD]), JSJavaProxy::Undefined);
    assert_eq!(decode_reply(&[]), JSJavaProxy::Undefined);
    let good = encode(&JSJavaProxy::Int(9));
    assert_eq!(decode_reply(&good), JSJavaProxy::Int(9));
}

#[test]
fn exception_replies_are_thrown_not_returned() {
    let exc = JSJavaProxy::Exception("bad".to_string(), "stack".to_string());
    assert_eq!(reply_action(exc), HostReply::Throw("bad".to_string()));
    assert_eq!(
        reply_action(JSJavaProxy::Int(1)),
        HostReply::Return(JSJavaProxy::Int(1))
    );
}

#[test]
fn caught_errors_convert_per_expected_type() {
    let err = CaughtError::Exception("m".to_string(), "s".to_string());
    assert_eq!(
        <JSJavaProxy as FromError>::from_err(err),
        JSJavaProxy::Exception("m".to_string(), "s".to_string())
    );
    let err = CaughtError::Message("oops".to_string());
    assert_eq!(
        <JSJavaProxy as FromError>::from_err(err),
        JSJavaProxy::Exception("oops".to_string(), String::new())
    );
    assert_eq!(
        <bool as FromError>::from_err(CaughtError::Message("x".to_string())),
        false
    );
    assert_eq!(
        <i32 as FromError>::from_err(CaughtError::Message("x".to_string())),
        -1
    );
    assert_eq!(
        <Option<u8> as FromError>::from_err(CaughtError::Message("x".to_string())),
        None
    );
}

#[test]
fn logger_levels_map_one_to_five() {
    assert_eq!(init_logger(1).level, LogLevel::Error);
    assert_eq!(init_logger(2).level, LogLevel::Warn);
    assert_eq!(init_logger(3).level, LogLevel::Info);
    assert_eq!(init_logger(4).level, LogLevel::Debug);
    assert_eq!(init_logger(5).level, LogLevel::Trace);
    // Anything else falls back to errors only.
    assert_eq!(init_logger(0).level, LogLevel::Error);
    assert_eq!(init_logger(9).level, LogLevel::Error);
}

#[test]
fn logger_filters_and_formats() {
    let lg = init_logger(3);
    assert!(lg.enabled(LogLevel::Error));
    assert!(lg.enabled(LogLevel::Info));
    assert!(!lg.enabled(LogLevel::Debug));
    let line = lg.log(LogLevel::Warn, "engine", "context created");
    assert_eq!(line, Some((2, "engine context created".to_string())));
    assert_eq!(lg.log(LogLevel::Trace, "engine", "noise"), None);
}

#[test]
fn scalars_pack_into_the_return_word() {
    assert_eq!(true.into_wasm(), 1);
    assert_eq!(false.into_wasm(), 0);
    assert_eq!(7i32.into_wasm(), 7);
    assert_eq!((-1i32).into_wasm(), 0xFFFF_FFFF_FFFF_FFFF);
    assert_eq!(7u32.into_wasm(), 7);
    assert_eq!((-2i64).into_wasm(), 0xFFFF_FFFF_FFFF_FFFE);
    assert_eq!(7u64.into_wasm(), 7);
}

#[test]
fn buffer_words_pack_address_and_length() {
    let w = pack_buffer_word(0x1234, 16);
    assert_eq!(w, 0x0000_1234_0000_0010);
    assert_eq!(unpack_buffer_word(w), (0x1234, 16));
    let w = pack_buffer_word(u32::MAX, u32::MAX);
    assert_eq!(unpack_buffer_word(w), (u32::MAX, u32::MAX));
}
