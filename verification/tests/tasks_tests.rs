use red_eval::printer::print_text;
use red_eval::tasks::{run_task_native, task_native, BuildError, BuildRun, Runner, Step, Tasks};
use red_eval::value::Value;

fn s(t: &str) -> Value {
    Value::Str(t.to_string())
}

fn w(t: &str) -> Value {
    Value::Word(t.to_string())
}

fn lw(t: &str) -> Value {
    Value::LitWord(t.to_string())
}

fn block(items: Vec<Value>) -> Value {
    Value::Block(items)
}

/// `[print "text"]`.
fn prints(text: &str) -> Value {
    block(vec![w("print"), s(text)])
}

/// Evaluates the bodies these tests hand to it: a run of `print value`.
fn eval_body(body: &[Value], out: &mut String) -> Value {
    let mut i = 0;
    while i < body.len() {
        match &body[i] {
            Value::Word(p) if p == "print" => {
                out.push_str(&print_text(&body[i + 1]).unwrap());
                i += 2;
            }
            other => panic!("cannot evaluate {other:?}"),
        }
    }
    Value::NoneVal
}

/// Walks a `build` block to the end; what the evaluated bodies printed.
fn build(spec: Value, tasks: &mut Tasks) -> Result<String, BuildError> {
    let mut b = BuildRun::start(&[spec])?;
    let mut out = String::new();
    loop {
        match b.step(tasks) {
            Step::Continue => {}
            Step::Evaluate { body, .. } => {
                eval_body(&body, &mut out);
            }
            Step::Finished => return Ok(out),
            Step::Failed(e) => return Err(e),
        }
    }
}

/// Steps a run to the end; what the evaluated bodies printed.
fn finish(mut r: Runner, tasks: &mut Tasks) -> Result<String, BuildError> {
    let mut out = String::new();
    loop {
        match r.step(tasks) {
            Step::Continue => {}
            Step::Evaluate { body, .. } => {
                eval_body(&body, &mut out);
            }
            Step::Finished => return Ok(out),
            Step::Failed(e) => return Err(e),
        }
    }
}

#[test]
fn build_registers_tasks() {
    let mut tasks = Tasks::new();
    let result = build(block(vec![w("task"), w("clean"), prints("cleaning"), w("run"), w("clean")]), &mut tasks)
        .unwrap();
    assert!(result.contains("cleaning"), "run should execute: {result}");
}

#[test]
fn build_default_runs() {
    let mut tasks = Tasks::new();
    let spec = block(vec![
        w("task"),
        w("clean"),
        prints("cleaning"),
        w("default"),
        w("clean"),
        w("run"),
        w("clean"),
    ]);
    let result = build(spec, &mut tasks).unwrap();
    assert!(result.contains("cleaning"), "default+run: {result}");
    assert_eq!(tasks.default_task, Some("clean".to_string()));
}

#[test]
fn build_dependencies() {
    let mut tasks = Tasks::new();
    let spec = block(vec![
        w("task"),
        w("a"),
        prints("a"),
        w("task"),
        w("b"),
        block(vec![w("a"), w("print"), s("b")]),
        w("run"),
        w("b"),
    ]);
    let result = build(spec, &mut tasks).unwrap();
    assert!(result.contains("a"), "dep a should run: {result}");
    assert!(result.contains("b"), "task b should run: {result}");
    let a_pos = result.find("a").unwrap();
    let b_pos = result.find("b").unwrap();
    assert!(a_pos < b_pos, "dependency order: a before b");
}

#[test]
fn build_cycle_detection() {
    let mut tasks = Tasks::new();
    let spec = block(vec![
        w("task"),
        w("a"),
        block(vec![w("b")]),
        w("task"),
        w("b"),
        block(vec![w("a")]),
        w("run"),
        w("a"),
    ]);
    let result = build(spec, &mut tasks);
    assert!(result.is_err(), "circular dependency should error");
    let message = result.unwrap_err().message();
    assert!(message.contains("circular"), "error mentions circular");
    assert_eq!(message, "build: circular task dependency detected: a -> b -> a");
}

#[test]
fn build_dedup() {
    let mut tasks = Tasks::new();
    let spec = block(vec![
        w("task"),
        w("a"),
        prints("a"),
        w("task"),
        w("b"),
        block(vec![w("a")]),
        w("task"),
        w("c"),
        block(vec![w("a"), w("b")]),
        w("run"),
        w("c"),
    ]);
    let result = build(spec, &mut tasks).unwrap();
    let count = result.matches("a\n").count();
    assert_eq!(count, 1, "task a should run once (dedup): {result}");
}

#[test]
fn build_standalone() {
    let mut tasks = Tasks::new();
    task_native(&[lw("a"), prints("hi")], &mut tasks).unwrap();
    let r = run_task_native(&[lw("a")], &tasks).unwrap();
    let result = finish(r, &mut tasks).unwrap();
    assert!(result.contains("hi"), "standalone task + run-task: {result}");
}

#[test]
fn run_task_unknown() {
    let tasks = Tasks::new();
    let result = run_task_native(&[lw("nonexistent")], &tasks);
    assert!(result.is_err(), "unknown task should error");
}

#[test]
fn build_unknown_keyword() {
    let mut tasks = Tasks::new();
    let result = build(block(vec![w("foobar")]), &mut tasks);
    assert!(result.is_err(), "unknown keyword should error");
}

// --- further cases ---

#[test]
fn run_hands_over_bodies_in_dependency_order() {
    let mut tasks = Tasks::new();
    task_native(&[w("a"), prints("a")], &mut tasks).unwrap();
    task_native(&[w("b"), block(vec![w("a"), w("print"), s("b")])], &mut tasks).unwrap();
    let mut r = run_task_native(&[s("b")], &tasks).unwrap();
    let mut handed = Vec::new();
    loop {
        match r.step(&mut tasks) {
            Step::Continue => {}
            Step::Evaluate { body, root } => handed.push((body, root)),
            Step::Finished => break,
            Step::Failed(e) => panic!("{e:?}"),
        }
    }
    assert_eq!(handed.len(), 2);
    assert_eq!(handed[0].0, vec![w("print"), s("a")]);
    assert!(!handed[0].1);
    assert_eq!(handed[1].0, vec![w("print"), s("b")]);
    assert!(handed[1].1);
    assert_eq!(tasks.ran, vec!["a".to_string(), "b".to_string()]);
    // A task that has run is not run again.
    let again = run_task_native(&[w("a")], &tasks).unwrap();
    assert_eq!(finish(again, &mut tasks).unwrap(), "");
}

#[test]
fn build_errors_name_the_problem() {
    let mut tasks = Tasks::new();
    assert!(matches!(BuildRun::start(&[s("x")]), Err(BuildError::NotBlock(_))));
    assert!(matches!(build(block(vec![s("task")]), &mut tasks), Err(BuildError::ExpectedKeyword(_))));
    assert!(matches!(build(block(vec![w("task"), w("a")]), &mut tasks), Err(BuildError::TaskArgs)));
    assert!(matches!(
        build(block(vec![w("task"), w("a"), Value::Integer(1)]), &mut tasks),
        Err(BuildError::TaskBody(_))
    ));
    assert!(matches!(build(block(vec![w("run")]), &mut tasks), Err(BuildError::RunArgs)));
    assert!(matches!(build(block(vec![w("default")]), &mut tasks), Err(BuildError::DefaultArgs)));
    assert!(matches!(
        build(block(vec![w("run"), Value::Integer(3)]), &mut tasks),
        Err(BuildError::TaskName(_))
    ));
    let e = build(block(vec![w("run"), w("zzz")]), &mut tasks).unwrap_err();
    assert_eq!(e.message(), "build: task `zzz` is not defined");
    assert!(matches!(task_native(&[w("a")], &mut tasks), Err(BuildError::Arity { expected: 2, got: 1 })));
}

#[test]
fn task_replaces_a_body() {
    let mut tasks = Tasks::new();
    task_native(&[w("a"), prints("one")], &mut tasks).unwrap();
    task_native(&[w("a"), prints("two")], &mut tasks).unwrap();
    assert_eq!(tasks.bodies.len(), 1);
    let r = run_task_native(&[w("a")], &tasks).unwrap();
    assert_eq!(finish(r, &mut tasks).unwrap(), "two\n");
}
