use pn_rust::bridge::{Context, Executor, ExecutorStatus, Module, Step, SIGNAL_GML_CALL, SIGNAL_RUST_RESULT};
use pn_rust::buffer::Buffer;
use pn_rust::error::Error;
use pn_rust::value::Value;

/// A module exporting `echo`, which returns its single argument unchanged.
struct EchoModule;

impl Module for EchoModule {
    fn new() -> Self {
        EchoModule
    }

    fn init(&mut self, _context: &mut Context) {}

    fn exports(&mut self, function_name: &[u8], arguments: &mut Buffer) -> Option<Step> {
        if function_name == b"echo" {
            Some(Step::Return(arguments.read().unwrap()))
        } else {
            None
        }
    }

    fn resume(&mut self, _host_result: Value) -> Step {
        Step::Return(Value::Undefined)
    }
}

/// A module exporting `solve_quadratic`, which computes the real roots of
/// `a*x^2 + b*x + c`, reports them to the host function `print_roots`, and
/// returns `Undefined` only after the host has answered.
struct QuadraticModule;

impl Module for QuadraticModule {
    fn new() -> Self {
        QuadraticModule
    }

    fn init(&mut self, _context: &mut Context) {}

    fn exports(&mut self, function_name: &[u8], arguments: &mut Buffer) -> Option<Step> {
        if function_name != b"solve_quadratic" {
            return None;
        }
        let mut next = || -> Result<f64, Error> {
            arguments.read()?.expect_real().map(f64::from_bits)
        };
        let (a, b, c) = match (next(), next(), next()) {
            (Ok(a), Ok(b), Ok(c)) => (a, b, c),
            (Err(e), _, _) | (_, Err(e), _) | (_, _, Err(e)) => return Some(Step::Fail(e)),
        };

        let d = b * b - 4.0 * a * c;
        let roots = if d < 0.0 {
            vec![]
        } else if d.abs() <= 1e-5 {
            vec![Value::Real((-b / (2.0 * a)).to_bits())]
        } else {
            let sqrt = d.sqrt();
            vec![
                Value::Real(((-b + sqrt) / (2.0 * a)).to_bits()),
                Value::Real(((-b - sqrt) / (2.0 * a)).to_bits()),
            ]
        };

        Some(Step::CallHost(b"print_roots".to_vec(), roots))
    }

    fn resume(&mut self, _host_result: Value) -> Step {
        Step::Return(Value::Undefined)
    }
}

fn args_buffer(values: &[Value]) -> Buffer {
    let mut buffer = Buffer::new();
    for v in values {
        buffer.write(v).unwrap();
    }
    buffer.rewind();
    buffer
}

fn decode_result(status: ExecutorStatus) -> Value {
    match status {
        ExecutorStatus::Completed(mut buffer) => {
            buffer.rewind();
            buffer.read().unwrap()
        }
        ExecutorStatus::AwaitingHostResult => panic!("call did not complete"),
    }
}

#[test]
fn signal_bytes_match_the_protocol() {
    assert_eq!(SIGNAL_GML_CALL, 1);
    assert_eq!(SIGNAL_RUST_RESULT, 2);
}

#[test]
fn echo_dispatch_returns_the_argument() {
    let mut context = Context::new();
    let mut executor = Executor::new(EchoModule::new());
    let bits = 3.5f64.to_bits();
    context.call_function(b"echo".to_vec(), args_buffer(&[Value::Real(bits)]));

    let status = executor.rust_executor_step(&mut context).unwrap().unwrap();
    assert_eq!(decode_result(status), Value::Real(bits));
}

#[test]
fn unexported_name_maps_to_unknown_function() {
    assert!(matches!(
        pn_rust::bridge::step_or_unknown(None),
        Err(Error::UnknownFunction)
    ));
    assert!(matches!(
        pn_rust::bridge::step_or_unknown(Some(Step::Return(Value::Undefined))),
        Ok(Step::Return(Value::Undefined))
    ));
}

#[test]
fn unknown_function_is_reported_not_fatal() {
    let mut context = Context::new();
    let mut executor = Executor::new(EchoModule::new());
    context.call_function(b"missing".to_vec(), args_buffer(&[]));

    assert!(matches!(
        executor.rust_executor_step(&mut context),
        Err(Error::UnknownFunction)
    ));
}

#[test]
fn mistyped_argument_fails_with_type_mismatch() {
    let mut context = Context::new();
    let mut executor = Executor::new(QuadraticModule::new());
    let args = args_buffer(&[
        Value::String(b"not a number".to_vec()),
        Value::Real(2.0f64.to_bits()),
        Value::Real(1.0f64.to_bits()),
    ]);
    context.call_function(b"solve_quadratic".to_vec(), args);
    assert!(matches!(
        executor.rust_executor_step(&mut context),
        Err(Error::TypeMismatch)
    ));

    // the bridge survives the failed call: a well-formed one still runs
    let good = args_buffer(&[
        Value::Real(1.0f64.to_bits()),
        Value::Real(2.0f64.to_bits()),
        Value::Real(1.0f64.to_bits()),
    ]);
    context.call_function(b"solve_quadratic".to_vec(), good);
    let status = executor.rust_executor_step(&mut context).unwrap().unwrap();
    assert!(matches!(status, ExecutorStatus::AwaitingHostResult));
}

#[test]
fn empty_queue_dispatches_nothing() {
    let mut context = Context::new();
    let mut executor = Executor::new(EchoModule::new());
    assert!(matches!(executor.rust_executor_step(&mut context), Ok(None)));
}

#[test]
fn calls_are_dispatched_in_enqueue_order() {
    let mut context = Context::new();
    let mut executor = Executor::new(EchoModule::new());
    let first = 1.0f64.to_bits();
    let second = 2.0f64.to_bits();
    context.call_function(b"echo".to_vec(), args_buffer(&[Value::Real(first)]));
    context.call_function(b"echo".to_vec(), args_buffer(&[Value::Real(second)]));

    let status = executor.rust_executor_step(&mut context).unwrap().unwrap();
    assert_eq!(decode_result(status), Value::Real(first));
    let status = executor.rust_executor_step(&mut context).unwrap().unwrap();
    assert_eq!(decode_result(status), Value::Real(second));
}

#[test]
fn host_calls_keep_enqueue_order_too() {
    let mut context = Context::new();
    context.call_gml(b"alpha".to_vec(), vec![]);
    context.call_gml(b"beta".to_vec(), vec![]);
    let (name, _) = context.take_gml_call().unwrap();
    assert_eq!(name, b"alpha".to_vec());
    let (name, _) = context.take_gml_call().unwrap();
    assert_eq!(name, b"beta".to_vec());
    assert!(context.take_gml_call().is_none());
}

#[test]
fn solve_quadratic_end_to_end() {
    let mut context = Context::new();
    let mut executor = Executor::new(QuadraticModule::new());
    let args = args_buffer(&[
        Value::Real(1.0f64.to_bits()),
        Value::Real((-3.0f64).to_bits()),
        Value::Real(2.0f64.to_bits()),
    ]);
    context.call_function(b"solve_quadratic".to_vec(), args);

    // the handler starts, computes the roots, and suspends on the host call
    let status = executor.rust_executor_step(&mut context).unwrap().unwrap();
    assert!(matches!(status, ExecutorStatus::AwaitingHostResult));

    // the host-call worker encodes [name, roots] for the host
    let mut request = gml_request(&mut context);
    assert_eq!(request.read().unwrap(), Value::String(b"print_roots".to_vec()));
    let roots = request.read().unwrap().to_array();
    assert_eq!(
        roots,
        vec![
            Value::Real(2.0f64.to_bits()),
            Value::Real(1.0f64.to_bits()),
        ]
    );

    // the host answers; only now does the outer call complete
    let mut reply = Buffer::new();
    reply.write(&Value::Undefined).unwrap();
    reply.rewind();
    context.receive_result(&mut reply).unwrap();
    let host_result = context.poll_gml_result().unwrap();

    let status = executor
        .handle_host_result(&mut context, host_result)
        .unwrap();
    assert_eq!(decode_result(status), Value::Undefined);
}

#[test]
fn discriminant_near_zero_yields_one_root() {
    let mut context = Context::new();
    let mut executor = Executor::new(QuadraticModule::new());
    let args = args_buffer(&[
        Value::Real(1.0f64.to_bits()),
        Value::Real(2.0f64.to_bits()),
        Value::Real(1.0f64.to_bits()),
    ]);
    context.call_function(b"solve_quadratic".to_vec(), args);

    let status = executor.rust_executor_step(&mut context).unwrap().unwrap();
    assert!(matches!(status, ExecutorStatus::AwaitingHostResult));

    let mut request = gml_request(&mut context);
    assert_eq!(request.read().unwrap(), Value::String(b"print_roots".to_vec()));
    let roots = request.read().unwrap().to_array();
    assert_eq!(roots, vec![Value::Real((-1.0f64).to_bits())]);
}

#[test]
fn negative_discriminant_yields_no_roots() {
    let mut context = Context::new();
    let mut executor = Executor::new(QuadraticModule::new());
    let args = args_buffer(&[
        Value::Real(1.0f64.to_bits()),
        Value::Real(0.0f64.to_bits()),
        Value::Real(1.0f64.to_bits()),
    ]);
    context.call_function(b"solve_quadratic".to_vec(), args);

    executor.rust_executor_step(&mut context).unwrap().unwrap();
    let mut request = gml_request(&mut context);
    request.read().unwrap();
    assert_eq!(request.read().unwrap().to_array(), vec![]);
}

#[test]
fn receive_result_rejects_malformed_buffers() {
    let mut context = Context::new();
    let mut region = vec![0u8; pn_rust::buffer::BUFFER_SIZE];
    region[0] = 9;
    let mut buffer = Buffer::from_bytes(region);
    assert_eq!(
        context.receive_result(&mut buffer),
        Err(Error::MalformedPayload)
    );
    assert!(context.poll_gml_result().is_none());
}

#[test]
fn call_gml_clears_the_pending_slot() {
    let mut context = Context::new();
    let mut reply = Buffer::new();
    reply.write(&Value::Real(5.0f64.to_bits())).unwrap();
    reply.rewind();
    context.receive_result(&mut reply).unwrap();
    assert!(context.poll_gml_result().is_some());

    context.call_gml(b"anything".to_vec(), vec![]);
    assert!(context.poll_gml_result().is_none());
}

/// Run the host-call worker once and hand back the encoded request, rewound
/// for reading.
fn gml_request(context: &mut Context) -> Buffer {
    let mut buffer = pn_rust::bridge::gml_executor_step(context)
        .unwrap()
        .expect("a host call should be queued");
    buffer.rewind();
    buffer
}
