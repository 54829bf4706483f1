use tasktracker::presets::PresetTask;
use tasktracker::task::Task;
use tasktracker::task_repo::TaskRepo;
use tasktracker::task_repo::TaskRepoError;

#[test]
fn get_all_is_ordered() -> Result<(), TaskRepoError> {
    let mut task_repo = TaskRepo::open_in_memory()?;

    // Has to be called always to initialize schema
    task_repo.init_db()?;

    assert!(task_repo.get_task(-1).is_err());

    task_repo.persist_task(&Task::new('B', "Medium task", None).unwrap())?;
    task_repo.persist_task(&Task::new('Z', "Unimportant task", None).unwrap())?;
    task_repo.persist_task(&Task::new('A', "Important task", None).unwrap())?;
    task_repo.persist_task(&Task::new('A', "Another important task", None).unwrap())?;

    let tasks = task_repo.get_all_tasks(None)?;
    assert_eq!(tasks.len(), 4);

    // Tasks should be sorted per decreasing priority, then alphabetically
    let tasks_descriptions: Vec<_> = tasks.iter().map(|task| task.description.clone()).collect();

    assert_eq!(
        tasks_descriptions,
        vec![
            "Another important task",
            "Important task",
            "Medium task",
            "Unimportant task"
        ]
    );

    Ok(())
}

#[test]
fn persisting() -> Result<(), TaskRepoError> {
    let mut task_repo = TaskRepo::open_in_memory()?;

    // Has to be called always to initialize schema
    task_repo.init_db()?;

    task_repo.persist_task(&Task::new('B', "Medium task", None).unwrap())?;

    // Cheating a bit here, we can guess the ID of a task
    let mut retrieved_task = task_repo.get_task(1)?;

    // Should be unchanged
    assert_eq!(retrieved_task.priority, 'B');
    assert_eq!(retrieved_task.description, "Medium task");
    assert!(!retrieved_task.completed);

    // Let's update it
    retrieved_task.lower_priority();
    retrieved_task.description = "A new description".into();
    retrieved_task.completed = true;

    task_repo.persist_task(&retrieved_task)?;

    // Let's retrieve it again
    let retrieved_task = task_repo.get_task(1)?;

    // Should have new fields
    assert_eq!(retrieved_task.priority, 'C');
    assert_eq!(retrieved_task.description, "A new description");
    assert!(retrieved_task.completed);

    Ok(())
}

#[test]
fn cleanup() -> Result<(), TaskRepoError> {
    let mut task_repo = TaskRepo::open_in_memory()?;

    // Has to be called always to initialize schema
    task_repo.init_db()?;

    task_repo.persist_task(&Task::new('C', "Some low importance task", None)?)?;

    // Pending tasks are spared
    task_repo.cleanup()?;
    let mut existing_task = task_repo.get_task(1)?;
    assert_eq!(existing_task.description, "Some low importance task");

    existing_task.completed = true;
    task_repo.persist_task(&existing_task)?;

    // Completed tasks are deleted
    task_repo.cleanup()?;
    assert!(task_repo.get_task(1).is_err());

    Ok(())
}

#[test]
fn project_handling() -> Result<(), TaskRepoError> {
    let mut task_repo = TaskRepo::open_in_memory()?;

    // Has to be called always to initialize schema
    task_repo.init_db()?;

    // By default, tasks do not pertain to any project
    task_repo.persist_task(&Task::new('B', "Medium task", None).unwrap())?;
    let global_task = task_repo.get_task(1)?;
    assert_eq!(global_task.project, None);

    let all_projects = task_repo.get_all_projects()?;
    assert_eq!(all_projects.len(), 0);

    // Tasks may have dedicated projects. Projects are created "on-the-fly"
    task_repo.persist_task(&Task::new('A', "Important task", "project".into()).unwrap())?;
    let project_task = task_repo.get_task(2)?;
    assert_eq!(project_task.project, Some("project".into()));

    let all_projects = task_repo.get_all_projects()?;
    assert_eq!(all_projects, ["project"]);

    // We can filter per project.
    let filtered_tasks = task_repo.get_all_tasks(Some("project"))?;
    assert_eq!(filtered_tasks.len(), 1);
    assert_eq!(filtered_tasks[0].description, "Important task");

    // We can rename projects
    task_repo.rename_project("project", "project_2")?;
    let all_projects = task_repo.get_all_projects()?;
    assert_eq!(all_projects, ["project_2"]);
    let filtered_tasks_old_project = task_repo.get_all_tasks(Some("project"))?;
    assert_eq!(filtered_tasks_old_project.len(), 0);
    let filtered_tasks_new_project = task_repo.get_all_tasks(Some("project_2"))?;
    assert_eq!(filtered_tasks_new_project.len(), 1);
    assert_eq!(filtered_tasks_new_project[0].description, "Important task");

    Ok(())
}

#[test]
fn task_repo_presets() -> Result<(), TaskRepoError> {
    let mut task_repo = TaskRepo::open_in_memory()?;

    // Has to be called always to initialize schema
    task_repo.init_db()?;

    // Create a new preset
    task_repo.add_preset("new preset")?;

    // Fetch its ID
    let preset_id = task_repo.get_preset_id_from_preset_name("new preset")?;

    // Add a new preset task
    task_repo.persist_preset_task(PresetTask::new('A', "some description", preset_id)?)?;

    // We should be able to see it now
    let preset = task_repo.get_preset("new preset")?;
    assert_eq!(preset.tasks.len(), 1);
    let preset_task = &preset.tasks[0];
    assert_eq!(preset_task.description, "some description");
    assert_eq!(preset_task.priority, 'A');

    // No non-preset task should have been added
    assert_eq!(task_repo.get_all_tasks(None)?.len(), 0);

    Ok(())
}

#[test]
fn persist_returns_id_and_round_trips() -> Result<(), TaskRepoError> {
    let mut task_repo = TaskRepo::open_in_memory()?;
    task_repo.init_db()?;

    let task = Task::new('D', "Round trip", Some("house")).unwrap();
    let id = task_repo.persist_task(&task)?;
    assert!(id >= 1);

    let fetched = task_repo.get_task(id)?;
    assert_eq!(fetched.id, id);
    assert_eq!(fetched.priority, 'D');
    assert_eq!(fetched.description, "Round trip");
    assert_eq!(fetched.completed, false);
    assert_eq!(fetched.project.as_deref(), Some("house"));

    Ok(())
}

#[test]
fn completed_tasks_sort_after_pending() -> Result<(), TaskRepoError> {
    let mut task_repo = TaskRepo::open_in_memory()?;
    task_repo.init_db()?;

    let a = task_repo.persist_task(&Task::new('A', "First", None).unwrap())?;
    task_repo.persist_task(&Task::new('B', "Second", None).unwrap())?;
    task_repo.persist_task(&Task::new('C', "Third", None).unwrap())?;

    // Flag the most urgent task as completed: it moves after all pending
    // ones, whatever its letter.
    let mut urgent = task_repo.get_task(a)?;
    urgent.completed = true;
    task_repo.persist_task(&urgent)?;

    let tasks = task_repo.get_all_tasks(None)?;
    let descriptions: Vec<_> = tasks.iter().map(|t| t.description.as_str()).collect();
    assert_eq!(descriptions, ["Second", "Third", "First"]);

    Ok(())
}

#[test]
fn project_filter_excludes_other_and_no_project_tasks() -> Result<(), TaskRepoError> {
    let mut task_repo = TaskRepo::open_in_memory()?;
    task_repo.init_db()?;

    task_repo.persist_task(&Task::new('A', "No project", None).unwrap())?;
    task_repo.persist_task(&Task::new('B', "In p", Some("p")).unwrap())?;
    task_repo.persist_task(&Task::new('C', "In q", Some("q")).unwrap())?;

    let filtered = task_repo.get_all_tasks(Some("p"))?;
    assert_eq!(filtered.len(), 1);
    assert_eq!(filtered[0].description, "In p");

    Ok(())
}

#[test]
fn rename_unused_project_is_a_silent_no_op() -> Result<(), TaskRepoError> {
    let mut task_repo = TaskRepo::open_in_memory()?;
    task_repo.init_db()?;

    task_repo.persist_task(&Task::new('A', "Keep me", Some("kept")).unwrap())?;
    task_repo.rename_project("unused", "other")?;

    let all_projects = task_repo.get_all_projects()?;
    assert_eq!(all_projects, ["kept"]);

    Ok(())
}

#[test]
fn get_task_unknown_id_is_not_found() -> Result<(), TaskRepoError> {
    let mut task_repo = TaskRepo::open_in_memory()?;
    task_repo.init_db()?;

    assert!(matches!(task_repo.get_task(123), Err(TaskRepoError::NotFound)));
    assert!(matches!(task_repo.get_task(-1), Err(TaskRepoError::NotFound)));

    Ok(())
}

#[test]
fn duplicate_preset_name_is_a_uniqueness_error() -> Result<(), TaskRepoError> {
    let mut task_repo = TaskRepo::open_in_memory()?;
    task_repo.init_db()?;

    task_repo.add_preset("twice")?;
    assert!(matches!(
        task_repo.add_preset("twice"),
        Err(TaskRepoError::Uniqueness)
    ));

    Ok(())
}

#[test]
fn unknown_preset_name_is_not_found() -> Result<(), TaskRepoError> {
    let mut task_repo = TaskRepo::open_in_memory()?;
    task_repo.init_db()?;

    assert!(matches!(
        task_repo.get_preset_id_from_preset_name("nowhere"),
        Err(TaskRepoError::NotFound)
    ));
    assert!(matches!(
        task_repo.get_preset("nowhere"),
        Err(TaskRepoError::NotFound)
    ));

    Ok(())
}

#[test]
fn persisted_preset_task_update_is_unsupported() -> Result<(), TaskRepoError> {
    let mut task_repo = TaskRepo::open_in_memory()?;
    task_repo.init_db()?;

    task_repo.add_preset("weekly")?;
    let preset_id = task_repo.get_preset_id_from_preset_name("weekly")?;
    task_repo.persist_preset_task(PresetTask::new('B', "water plants", preset_id)?)?;

    let preset = task_repo.get_preset("weekly")?;
    let persisted = PresetTask {
        id: preset.tasks[0].id,
        preset_id,
        priority: 'C',
        description: "changed".into(),
    };
    assert!(matches!(
        task_repo.persist_preset_task(persisted),
        Err(TaskRepoError::UnsupportedOperation)
    ));

    Ok(())
}

#[test]
fn preset_names_are_listed_ascending() -> Result<(), TaskRepoError> {
    let mut task_repo = TaskRepo::open_in_memory()?;
    task_repo.init_db()?;

    task_repo.add_preset("morning")?;
    task_repo.add_preset("evening")?;
    task_repo.add_preset("weekly")?;

    let names = task_repo.get_all_preset_names()?;
    assert_eq!(names, ["evening", "morning", "weekly"]);

    Ok(())
}

#[test]
fn inject_preset_creates_tasks_without_altering_the_preset() -> Result<(), TaskRepoError> {
    let mut task_repo = TaskRepo::open_in_memory()?;
    task_repo.init_db()?;

    task_repo.add_preset("travel")?;
    let preset_id = task_repo.get_preset_id_from_preset_name("travel")?;
    task_repo.persist_preset_task(PresetTask::new('A', "pack bags", preset_id)?)?;
    task_repo.persist_preset_task(PresetTask::new('C', "buy tickets", preset_id)?)?;

    task_repo.inject_preset("travel")?;

    // One new task per preset task, each carrying the preset's name as its
    // project.
    let tasks = task_repo.get_all_tasks(Some("travel"))?;
    assert_eq!(tasks.len(), 2);
    assert_eq!(tasks[0].description, "pack bags");
    assert_eq!(tasks[0].priority, 'A');
    assert_eq!(tasks[0].completed, false);
    assert_eq!(tasks[1].description, "buy tickets");
    assert_eq!(tasks[1].priority, 'C');

    // The preset itself is unchanged.
    let preset = task_repo.get_preset("travel")?;
    assert_eq!(preset.tasks.len(), 2);
    assert_eq!(preset.tasks[0].description, "pack bags");
    assert_eq!(preset.tasks[1].description, "buy tickets");

    Ok(())
}

#[test]
fn equal_sort_keys_keep_every_task() -> Result<(), TaskRepoError> {
    let mut task_repo = TaskRepo::open_in_memory()?;
    task_repo.init_db()?;

    // Two distinct rows with the same priority and description both stay.
    task_repo.persist_task(&Task::new('B', "Twin", None).unwrap())?;
    task_repo.persist_task(&Task::new('B', "Twin", None).unwrap())?;

    let tasks = task_repo.get_all_tasks(None)?;
    assert_eq!(tasks.len(), 2);
    assert_ne!(tasks[0].id, tasks[1].id);

    Ok(())
}

#[test]
fn empty_store_lists_nothing() -> Result<(), TaskRepoError> {
    let mut task_repo = TaskRepo::open_in_memory()?;
    task_repo.init_db()?;

    assert_eq!(task_repo.get_all_tasks(None)?.len(), 0);
    assert_eq!(task_repo.get_all_projects()?.len(), 0);
    assert_eq!(task_repo.get_all_preset_names()?.len(), 0);

    Ok(())
}

#[test]
fn init_db_is_idempotent() -> Result<(), TaskRepoError> {
    let mut task_repo = TaskRepo::open_in_memory()?;
    task_repo.init_db()?;
    task_repo.persist_task(&Task::new('A', "Survivor", None).unwrap())?;

    // A second schema initialization is safe and loses nothing.
    task_repo.init_db()?;
    assert_eq!(task_repo.get_all_tasks(None)?.len(), 1);

    Ok(())
}
