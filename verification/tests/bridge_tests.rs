use quickjslib::arrays::{
    array_add, array_close, array_create, array_get, array_remove, array_set, array_size,
};
use quickjslib::bridge::{
    promise_create, promise_reject, promise_resolve, BridgeError, FutureRegistry, JavaPromise,
};
use quickjslib::codec::encode;
use quickjslib::context::{close_function, get_global, set_global};
use quickjslib::convert::{ConversionError, Converted};
use quickjslib::engine::{EngineValue, ScriptEngine};
use quickjslib::objects::{
    object_close, object_contains_key, object_create, object_get_value, object_key_set,
    object_remove_value, object_set_value, object_size,
};
use quickjslib::proxy::JSJavaProxy;

fn done(c: Converted) -> JSJavaProxy {
    match c {
        Converted::Done(p) => p,
        Converted::NeedsFuture(_) => panic!("expected a finished conversion"),
    }
}

#[test]
fn primitives_convert_by_value() {
    let mut e = ScriptEngine::new();
    assert_eq!(done(e.convert(&EngineValue::Null)), JSJavaProxy::Null);
    assert_eq!(done(e.convert(&EngineValue::Undefined)), JSJavaProxy::Undefined);
    assert_eq!(done(e.convert(&EngineValue::Boolean(true))), JSJavaProxy::Boolean(true));
    assert_eq!(done(e.convert(&EngineValue::Int(-7))), JSJavaProxy::Int(-7));
    let bits = (2.5f64).to_bits();
    assert_eq!(done(e.convert(&EngineValue::Float(bits))), JSJavaProxy::Float(bits));
    assert_eq!(
        done(e.convert(&EngineValue::Str("hi".to_string()))),
        JSJavaProxy::String("hi".to_string())
    );
    assert_eq!(
        done(e.convert(&EngineValue::Thrown("m".to_string(), "st".to_string()))),
        JSJavaProxy::Exception("m".to_string(), "st".to_string())
    );
}

#[test]
fn compounds_convert_to_handles_and_materialize_back() {
    let mut e = ScriptEngine::new();
    let arr = EngineValue::Array(vec![EngineValue::Int(1), EngineValue::Int(2)]);
    let p = done(e.convert(&arr));
    let h = match p {
        JSJavaProxy::NativeArray(h) => h,
        other => panic!("expected a native array handle, got {:?}", other),
    };
    // The round trip restores the same value through the handle.
    assert_eq!(e.materialize(&JSJavaProxy::NativeArray(h)), Ok(arr));

    let obj = EngineValue::Object(vec![("a".to_string(), EngineValue::Int(1))]);
    let p = done(e.convert(&obj));
    match p {
        JSJavaProxy::NativeObject(h2) => {
            assert_eq!(e.materialize(&JSJavaProxy::NativeObject(h2)), Ok(obj));
        }
        other => panic!("expected a native object handle, got {:?}", other),
    }

    let f = EngineValue::Function("main".to_string());
    match done(e.convert(&f)) {
        JSJavaProxy::Function(name, hf) => {
            assert_eq!(name, "main");
            assert_eq!(e.materialize(&JSJavaProxy::Function(name, hf)), Ok(f));
            assert!(close_function(&mut e, hf));
            assert!(!close_function(&mut e, hf));
        }
        other => panic!("expected a function proxy, got {:?}", other),
    }
}

#[test]
fn inline_compounds_materialize_elementwise() {
    let mut e = ScriptEngine::new();
    let p = JSJavaProxy::Array(vec![JSJavaProxy::Int(1), JSJavaProxy::Boolean(false)]);
    assert_eq!(
        e.materialize(&p),
        Ok(EngineValue::Array(vec![EngineValue::Int(1), EngineValue::Boolean(false)]))
    );
    let dead = JSJavaProxy::Array(vec![JSJavaProxy::NativeArray(17)]);
    assert_eq!(e.materialize(&dead), Err(ConversionError::UnknownHandle(17)));
}

#[test]
fn bridging_is_idempotent() {
    let mut e = ScriptEngine::new();
    let pidx = e.new_promise();
    // First conversion has no future yet: the host must allocate one.
    let pending = match e.convert(&EngineValue::Promise(pidx)) {
        Converted::NeedsFuture(pending) => pending,
        Converted::Done(p) => panic!("expected a future request, got {:?}", p),
    };
    assert_eq!(pending.pidx, pidx);
    let mut host = FutureRegistry::new();
    let fid = host.create_future();
    let proxy = e.finish_bridge(pending, fid);
    let container = match proxy {
        JSJavaProxy::CompletableFuture(got_fid, container) => {
            assert_eq!(got_fid, fid);
            container
        }
        other => panic!("expected a future proxy, got {:?}", other),
    };
    // Converting the same promise instance again yields the identical
    // future id, without asking the host for another.
    assert_eq!(
        e.convert(&EngineValue::Promise(pidx)),
        Converted::Done(JSJavaProxy::CompletableFuture(fid, container))
    );
}

#[test]
fn resolution_completes_exactly_once_with_the_value() {
    let mut e = ScriptEngine::new();
    let pidx = e.new_promise();
    let pending = match e.convert(&EngineValue::Promise(pidx)) {
        Converted::NeedsFuture(pending) => pending,
        Converted::Done(p) => panic!("expected a future request, got {:?}", p),
    };
    let mut host = FutureRegistry::new();
    let fid = host.create_future();
    let _ = e.finish_bridge(pending, fid);

    // The promise resolves with 42: exactly one callback invocation is queued.
    assert!(e.settle_promise(pidx, true, EngineValue::Int(42)));
    let ev = e.run_job().expect("one settlement job");
    assert_eq!(ev.future_id, fid);
    assert!(ev.resolved);
    assert_eq!(ev.value, EngineValue::Int(42));
    // The queue holds nothing further, and a second settlement is inert.
    assert!(e.run_job().is_none());
    assert!(!e.settle_promise(pidx, true, EngineValue::Int(43)));
    assert!(e.run_job().is_none());

    // The resolution callback completes the future with Int(42), once.
    let on_resolve = JavaPromise::new(1, fid, false);
    let c = on_resolve.call(&mut e, &ev.value);
    assert!(!c.reject);
    assert_eq!(c.future_id, fid);
    assert_eq!(c.payload, JSJavaProxy::Int(42));
    assert_eq!(c.body, encode(&JSJavaProxy::Int(42)));
    assert_eq!(host.complete(c.reject, c.future_id, c.body), Ok(()));
    // A second completion of the same future is the bridge-contract error.
    assert_eq!(
        host.complete(false, fid, vec![]),
        Err(BridgeError::AlreadyCompleted(fid))
    );
    assert_eq!(host.complete(false, 99, vec![]), Err(BridgeError::UnknownFuture(99)));
}

#[test]
fn rejection_completes_with_the_exception_form() {
    let mut e = ScriptEngine::new();
    let pidx = e.new_promise();
    let pending = match e.convert(&EngineValue::Promise(pidx)) {
        Converted::NeedsFuture(pending) => pending,
        Converted::Done(p) => panic!("expected a future request, got {:?}", p),
    };
    let mut host = FutureRegistry::new();
    let fid = host.create_future();
    let _ = e.finish_bridge(pending, fid);

    assert!(e.settle_promise(pidx, false, EngineValue::Str("boom".to_string())));
    let ev = e.run_job().expect("one settlement job");
    assert!(!ev.resolved);
    let on_reject = JavaPromise::new(1, fid, true);
    let c = on_reject.call(&mut e, &ev.value);
    assert!(c.reject);
    assert_eq!(c.future_id, fid);
    assert_eq!(c.payload, JSJavaProxy::Exception("boom".to_string(), String::new()));
    assert_eq!(host.complete(c.reject, c.future_id, c.body), Ok(()));
    assert!(e.run_job().is_none());
}

#[test]
fn pending_promise_reads_as_null_not_as_an_error() {
    let mut e = ScriptEngine::new();
    let pidx = e.new_promise();
    let jp = JavaPromise::new(1, 5, false);
    let c = jp.call(&mut e, &EngineValue::Promise(pidx));
    assert_eq!(c.payload, JSJavaProxy::Null);
}

#[test]
fn settled_value_is_unboxed_one_level() {
    let mut e = ScriptEngine::new();
    let boxed = EngineValue::Object(vec![("value".to_string(), EngineValue::Int(5))]);
    let jp = JavaPromise::new(1, 0, false);
    let c = jp.call(&mut e, &boxed);
    assert_eq!(c.payload, JSJavaProxy::Int(5));
    // An undefined boxed value does not unwrap: the object itself converts.
    let unboxed = EngineValue::Object(vec![("value".to_string(), EngineValue::Undefined)]);
    let c2 = jp.call(&mut e, &unboxed);
    match c2.payload {
        JSJavaProxy::NativeObject(_) => {}
        other => panic!("expected the object itself as a handle, got {:?}", other),
    }
}

#[test]
fn host_created_promise_resolves_through_its_container() {
    let mut e = ScriptEngine::new();
    let cf = promise_create(&mut e, 7);
    // Resolving hands the materialized value to the promise.
    assert_eq!(promise_resolve(&mut e, &cf, JSJavaProxy::Int(1)), Ok(true));
    // The settled promise now reads as its value through a callback.
    let jp = JavaPromise::new(1, 7, false);
    let c = jp.call(&mut e, &EngineValue::Promise(cf.promise));
    assert_eq!(c.payload, JSJavaProxy::Int(1));
}

#[test]
fn host_created_promise_rejects_through_its_container() {
    let mut e = ScriptEngine::new();
    let cf = promise_create(&mut e, 8);
    assert_eq!(
        promise_reject(&mut e, &cf, JSJavaProxy::String("no".to_string())),
        Ok(true)
    );
    let jp = JavaPromise::new(1, 8, true);
    let c = jp.call(&mut e, &EngineValue::Promise(cf.promise));
    assert_eq!(c.payload, JSJavaProxy::Exception("no".to_string(), String::new()));
}

#[test]
fn nested_promise_property_comes_back_bridged() {
    let mut e = ScriptEngine::new();
    let pidx = e.new_promise();
    let obj = EngineValue::Object(vec![
        ("n".to_string(), EngineValue::Int(3)),
        ("p".to_string(), EngineValue::Promise(pidx)),
    ]);
    // Converting the object copies nothing: it yields a handle.
    let h = match done(e.convert(&obj)) {
        JSJavaProxy::NativeObject(h) => h,
        other => panic!("expected a native object handle, got {:?}", other),
    };
    // Reading the promise-valued property diverts into the bridge.
    let key = JSJavaProxy::String("p".to_string());
    let pending = match object_get_value(&mut e, h, &key) {
        Ok(Converted::NeedsFuture(pending)) => pending,
        other => panic!("expected a future request, got {:?}", other),
    };
    assert_eq!(pending.pidx, pidx);
    let mut host = FutureRegistry::new();
    let fid = host.create_future();
    let fp = e.finish_bridge(pending, fid);
    match fp {
        JSJavaProxy::CompletableFuture(got_fid, _) => assert_eq!(got_fid, fid),
        other => panic!("expected a future proxy, got {:?}", other),
    }
    // Reading the same property again reuses the same future id.
    match object_get_value(&mut e, h, &key) {
        Ok(Converted::Done(JSJavaProxy::CompletableFuture(got_fid, _))) => {
            assert_eq!(got_fid, fid)
        }
        other => panic!("expected the bridged future, got {:?}", other),
    }
}

#[test]
fn object_accessors_read_and_write_properties() {
    let mut e = ScriptEngine::new();
    let h = object_create(&mut e);
    assert_eq!(object_size(&e, h), 0);
    let key = JSJavaProxy::String("a".to_string());
    assert!(!object_contains_key(&e, h, &key));
    assert!(object_set_value(&mut e, h, &key, JSJavaProxy::Int(1)));
    assert!(object_contains_key(&e, h, &key));
    assert_eq!(object_size(&e, h), 1);
    assert_eq!(
        object_get_value(&mut e, h, &key),
        Ok(Converted::Done(JSJavaProxy::Int(1)))
    );
    // Overwriting keeps one property under the key.
    assert!(object_set_value(&mut e, h, &key, JSJavaProxy::Int(2)));
    assert_eq!(object_size(&e, h), 1);
    assert_eq!(
        object_get_value(&mut e, h, &key),
        Ok(Converted::Done(JSJavaProxy::Int(2)))
    );
    // A missing property reads as Null, never as an error.
    let missing = JSJavaProxy::String("zz".to_string());
    assert_eq!(
        object_get_value(&mut e, h, &missing),
        Ok(Converted::Done(JSJavaProxy::Null))
    );
    // Keys come out in property order.
    let key_b = JSJavaProxy::String("b".to_string());
    assert!(object_set_value(&mut e, h, &key_b, JSJavaProxy::Boolean(true)));
    assert_eq!(
        object_key_set(&e, h),
        Ok(JSJavaProxy::Array(vec![
            JSJavaProxy::String("a".to_string()),
            JSJavaProxy::String("b".to_string()),
        ]))
    );
    // Removal.
    assert!(object_remove_value(&mut e, h, &key));
    assert!(!object_contains_key(&e, h, &key));
    assert_eq!(object_size(&e, h), 1);
    // Non-string keys are rejected, not coerced.
    assert_eq!(
        object_get_value(&mut e, h, &JSJavaProxy::Int(1)),
        Err(ConversionError::InvalidKey)
    );
    // Closing detects double close; accessors report the dead handle.
    assert!(object_close(&mut e, h));
    assert!(!object_close(&mut e, h));
    assert_eq!(object_size(&e, h), -1);
    assert_eq!(
        object_get_value(&mut e, h, &key),
        Err(ConversionError::UnknownHandle(h))
    );
}

#[test]
fn array_accessors_follow_splice_semantics() {
    let mut e = ScriptEngine::new();
    let h = array_create(&mut e);
    assert_eq!(array_size(&e, h), 0);
    assert!(array_add(&mut e, h, 0, JSJavaProxy::Int(1)));
    assert!(array_add(&mut e, h, 1, JSJavaProxy::Int(3)));
    // Inserting in the middle shifts later elements up.
    assert!(array_add(&mut e, h, 1, JSJavaProxy::Int(2)));
    assert_eq!(array_size(&e, h), 3);
    assert_eq!(array_get(&mut e, h, 0), Ok(Converted::Done(JSJavaProxy::Int(1))));
    assert_eq!(array_get(&mut e, h, 1), Ok(Converted::Done(JSJavaProxy::Int(2))));
    assert_eq!(array_get(&mut e, h, 2), Ok(Converted::Done(JSJavaProxy::Int(3))));
    // Out of bounds reads as Undefined, as the script language has it.
    assert_eq!(array_get(&mut e, h, 9), Ok(Converted::Done(JSJavaProxy::Undefined)));
    // Writing past the end pads the gap with Undefined.
    assert!(array_set(&mut e, h, 5, JSJavaProxy::Boolean(true)));
    assert_eq!(array_size(&e, h), 6);
    assert_eq!(array_get(&mut e, h, 4), Ok(Converted::Done(JSJavaProxy::Undefined)));
    assert_eq!(array_get(&mut e, h, 5), Ok(Converted::Done(JSJavaProxy::Boolean(true))));
    // Removing shifts later elements down; past the end removes nothing.
    assert!(array_remove(&mut e, h, 0));
    assert_eq!(array_size(&e, h), 5);
    assert_eq!(array_get(&mut e, h, 0), Ok(Converted::Done(JSJavaProxy::Int(2))));
    assert!(array_remove(&mut e, h, 50));
    assert_eq!(array_size(&e, h), 5);
    assert!(!array_remove(&mut e, h, -1));
    assert!(array_close(&mut e, h));
    assert_eq!(array_size(&e, h), -1);
}

#[test]
fn globals_store_and_convert_back() {
    let mut e = ScriptEngine::new();
    assert_eq!(
        set_global(&mut e, "answer".to_string(), JSJavaProxy::Int(42)),
        Ok(JSJavaProxy::Null)
    );
    assert_eq!(
        get_global(&mut e, &"answer".to_string()),
        Converted::Done(JSJavaProxy::Int(42))
    );
    // A missing global reads as Undefined.
    assert_eq!(
        get_global(&mut e, &"nothing".to_string()),
        Converted::Done(JSJavaProxy::Undefined)
    );
    // Installing a host function makes it a callable in the engine.
    assert_eq!(
        set_global(&mut e, "f".to_string(), JSJavaProxy::JavaFunction(1, 2)),
        Ok(JSJavaProxy::Null)
    );
    match get_global(&mut e, &"f".to_string()) {
        Converted::Done(JSJavaProxy::Function(_, _)) => {}
        other => panic!("expected a function proxy, got {:?}", other),
    }
    // Overwriting replaces the value under the name.
    assert_eq!(
        set_global(&mut e, "answer".to_string(), JSJavaProxy::Int(1)),
        Ok(JSJavaProxy::Null)
    );
    assert_eq!(
        get_global(&mut e, &"answer".to_string()),
        Converted::Done(JSJavaProxy::Int(1))
    );
}

#[test]
fn future_proxy_materializes_and_reattaches_its_id() {
    let mut e = ScriptEngine::new();
    let cf = promise_create(&mut e, 4);
    // Materializing a future proxy restores the promise and re-attaches the
    // id as its hidden property.
    assert_eq!(
        e.materialize(&JSJavaProxy::CompletableFuture(9, cf.handle)),
        Ok(EngineValue::Promise(cf.promise))
    );
    // A later conversion reuses the re-attached id instead of asking anew.
    assert_eq!(
        e.convert(&EngineValue::Promise(cf.promise)),
        Converted::Done(JSJavaProxy::CompletableFuture(9, cf.handle))
    );
    // A future proxy over a non-promise handle is reported.
    let mut e2 = ScriptEngine::new();
    let h = object_create(&mut e2);
    assert_eq!(
        e2.materialize(&JSJavaProxy::CompletableFuture(1, h)),
        Err(ConversionError::NotAPromise(h))
    );
}

#[test]
fn bridging_an_already_settled_promise_queues_its_completion() {
    let mut e = ScriptEngine::new();
    let pidx = e.new_promise();
    // The promise settles before anyone bridges it; nothing is attached, so
    // nothing fires yet.
    assert!(e.settle_promise(pidx, true, EngineValue::Int(9)));
    assert!(e.run_job().is_none());
    // Bridging it attaches the callbacks, and the one settlement callback
    // invocation is queued now.
    let pending = match e.convert(&EngineValue::Promise(pidx)) {
        Converted::NeedsFuture(pending) => pending,
        Converted::Done(p) => panic!("expected a future request, got {:?}", p),
    };
    let _ = e.finish_bridge(pending, 3);
    let ev = e.run_job().expect("the settled promise fires on attach");
    assert_eq!(ev.future_id, 3);
    assert!(ev.resolved);
    assert_eq!(ev.value, EngineValue::Int(9));
    // Exactly once: converting again re-attaches nothing.
    let _ = e.convert(&EngineValue::Promise(pidx));
    assert!(e.run_job().is_none());
}

#[test]
fn converting_a_host_created_promise_reuses_its_future_id() {
    let mut e = ScriptEngine::new();
    let cf = promise_create(&mut e, 21);
    // The future id installed at creation is the one conversion reuses.
    assert_eq!(
        e.convert(&EngineValue::Promise(cf.promise)),
        Converted::Done(JSJavaProxy::CompletableFuture(21, cf.handle))
    );
    // The conversion attached the callbacks: resolving now queues the event.
    assert!(e.settle_promise(cf.promise, true, EngineValue::Null));
    let ev = e.run_job().expect("one settlement job");
    assert_eq!(ev.future_id, 21);
}

#[test]
fn set_global_reports_a_value_that_does_not_materialize() {
    let mut e = ScriptEngine::new();
    let bad = JSJavaProxy::NativeObject(40);
    assert_eq!(
        set_global(&mut e, "x".to_string(), bad),
        Err(ConversionError::UnknownHandle(40))
    );
    assert_eq!(
        get_global(&mut e, &"x".to_string()),
        Converted::Done(JSJavaProxy::Undefined)
    );
}
