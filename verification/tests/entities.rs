use tasktracker::presets::PresetTask;
use tasktracker::presets::PresetTaskError;
use tasktracker::task::Task;
use tasktracker::task::TaskError;

#[test]
fn task_simple_usage() {
    let mut task = Task::new('A', "Some nice task", None).expect("Task creation should not fail");

    assert_eq!(task.id, -1); // Unpersisted tasks should have a special ID
    assert_eq!(task.completed, false); // Newly created tasks are not done
    assert_eq!(task.priority, 'A');
    assert_eq!(task.description, "Some nice task");

    task.lower_priority();
    assert_eq!(task.priority, 'B');

    task.increase_priority();
    assert_eq!(task.priority, 'A');
}

#[test]
fn increase_max_priority_lower_min_priority() {
    let mut urgent_task =
        Task::new('A', "Some urgent task", None).expect("Task creation should not fail");
    let mut unimportant_task =
        Task::new('Z', "Some unimportant task", None).expect("Task creation should not fail");

    urgent_task.increase_priority();
    assert_eq!(urgent_task.priority, 'A'); // No failure, but no change either

    unimportant_task.lower_priority();
    assert_eq!(unimportant_task.priority, 'Z'); // No failure, but no change either
}

#[test]
fn new_task_out_of_range() {
    let new_task_result = Task::new('4', "Some task with an invalid priority", None);

    assert!(new_task_result.is_err(), "Task creation should fail")
}

#[test]
fn presets_simple_usage() {
    let task = PresetTask::new('A', "Some nice task", 42).expect("Task creation should not fail");

    assert_eq!(task.id, -1); // Unpersisted tasks should have a special ID
    assert_eq!(task.priority, 'A');
    assert_eq!(task.description, "Some nice task");
}

#[test]
fn priority_accepted_for_every_letter() {
    for code in b'A'..=b'Z' {
        let letter = code as char;
        let task = Task::new(letter, "letter check", None).expect("valid letter should be accepted");
        assert_eq!(task.priority, letter);
        let preset_task =
            PresetTask::new(letter, "letter check", 1).expect("valid letter should be accepted");
        assert_eq!(preset_task.priority, letter);
    }
}

#[test]
fn priority_rejected_outside_letters() {
    for bad in ['@', '[', 'a', 'z', '0', ' ', '~'] {
        match Task::new(bad, "bad letter", None) {
            Err(TaskError::PriorityNotInRangeError(c)) => assert_eq!(c, bad),
            _ => panic!("priority {bad} should be rejected"),
        }
        match PresetTask::new(bad, "bad letter", 1) {
            Err(PresetTaskError::PriorityNotInRangeError(c)) => assert_eq!(c, bad),
            _ => panic!("priority {bad} should be rejected"),
        }
    }
}

#[test]
fn priority_steps_one_letter_at_a_time() {
    for code in b'B'..=b'Z' {
        let letter = code as char;
        let mut task = Task::new(letter, "step check", None).unwrap();
        task.increase_priority();
        assert_eq!(task.priority, (code - 1) as char);
    }
    for code in b'A'..=b'Y' {
        let letter = code as char;
        let mut task = Task::new(letter, "step check", None).unwrap();
        task.lower_priority();
        assert_eq!(task.priority, (code + 1) as char);
    }
}

#[test]
fn new_task_keeps_project() {
    let task = Task::new('C', "With a project", Some("house")).unwrap();
    assert_eq!(task.project.as_deref(), Some("house"));
    let task = Task::new('C', "Without a project", None).unwrap();
    assert_eq!(task.project, None);
}
