use vao_cache::commands::GlCommand;
use vao_cache::executor::CommandQueue;

#[test]
fn units_of_work_run_in_submission_order() {
    let mut queue = CommandQueue::new();
    let a = queue.submit(vec![GlCommand::BindArray { id: 1 }]);
    let b = queue.submit(vec![GlCommand::UnbindArray]);
    let c = queue.submit(vec![GlCommand::DeleteArray { id: 1 }]);
    assert_eq!((a, b, c), (0, 1, 2));
    assert_eq!(queue.run_next(), Some(0));
    assert_eq!(queue.run_next(), Some(1));
    assert_eq!(queue.run_next(), Some(2));
    assert_eq!(queue.run_next(), None);
}

#[test]
fn destruction_runs_before_later_reuse() {
    // A unit of work deleting an identifier, submitted before one that
    // constructs a new object reusing its numeric value, also runs before it.
    let mut queue = CommandQueue::new();
    let destroy = queue.submit(vec![GlCommand::DeleteArray { id: 4 }]);
    let reuse = queue.submit(vec![GlCommand::BindArray { id: 4 }]);
    let first = queue.run_next();
    let second = queue.run_next();
    assert_eq!(first, Some(destroy));
    assert_eq!(second, Some(reuse));
}

#[test]
fn work_submitted_after_a_run_still_runs_in_order() {
    let mut queue = CommandQueue::new();
    queue.submit(vec![GlCommand::UnbindArray]);
    assert_eq!(queue.run_next(), Some(0));
    assert_eq!(queue.run_next(), None);
    let idx = queue.submit(vec![GlCommand::BindArray { id: 2 }]);
    assert_eq!(idx, 1);
    assert_eq!(queue.run_next(), Some(1));
}
