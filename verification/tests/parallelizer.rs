use dspy_core::error::{DspyError, Result};
use dspy_core::parallelizer::{ParallelExecutor, ParallelExecutorConfig};

fn execute(
    executor: &ParallelExecutor,
    data: Vec<i32>,
    work: fn(i32) -> Result<i32>,
) -> Result<Vec<Option<i32>>> {
    let mut batch = executor.begin(data.len());
    for (i, x) in data.into_iter().enumerate() {
        if !batch.may_start() {
            break;
        }
        match work(x) {
            Ok(y) => batch.on_value(i, y),
            Err(_) => batch.on_error(),
        }
    }
    assert!(batch.stragglers().map(|s| s.is_empty()).unwrap_or(true));
    batch.finish()
}

#[test]
fn parallelizer_test_parallel_basic() {
    let executor = ParallelExecutor::default_config();
    let results = execute(&executor, vec![1, 2, 3, 4, 5], |x| Ok(x * 2)).unwrap();
    assert_eq!(results.len(), 5);
    assert_eq!(results[0], Some(2));
    assert_eq!(results[4], Some(10));
}

#[test]
fn test_parallel_with_errors() {
    let config = ParallelExecutorConfig { max_errors: 10, ..Default::default() };
    let executor = ParallelExecutor::new(config);
    let work = |x: i32| {
        if x == 0 {
            Err(DspyError::Other("zero".to_string()))
        } else {
            Ok(x * 2)
        }
    };
    let results = execute(&executor, vec![1, 2, 0, 4, 5], work).unwrap();
    assert_eq!(results[0], Some(2));
    assert_eq!(results[2], None);
    assert_eq!(results[3], Some(8));
}

#[test]
fn test_parallel_cancellation() {
    let config = ParallelExecutorConfig { max_errors: 1, num_threads: 1, ..Default::default() };
    let executor = ParallelExecutor::new(config);
    let work = |x: i32| {
        if x == 0 {
            Err(DspyError::Other("error".to_string()))
        } else {
            Ok(x)
        }
    };
    let result = execute(&executor, vec![0, 1, 2], work);
    assert!(result.is_err());
}

#[test]
fn a_few_that_take_too_long_are_tried_again() {
    let executor = ParallelExecutor::default_config();
    assert_eq!(executor.config().straggler_limit, 3);
    let mut batch = executor.begin::<i32>(3);
    batch.on_value(0, 7);
    batch.on_timeout(1);
    batch.on_value(2, 9);
    assert_eq!(batch.stragglers().unwrap(), vec![1]);
    batch.on_value(1, 8);
    assert_eq!(batch.finish().unwrap(), vec![Some(7), Some(8), Some(9)]);
}
