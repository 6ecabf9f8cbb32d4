use tasque::task::Task;
use tasque::{DateTime, Schedule};

fn dt(year: i32, month: u8, day: u8, hour: u8, minute: u8, second: u8) -> DateTime {
    DateTime::new(year, month, day, hour, minute, second).unwrap()
}

#[test]
fn task_keeps_identifier_and_patterns() {
    let task = Task::builder("report")
        .at(Schedule::new_every_hour())
        .at_several(vec![Schedule::new_every_minute().at_second(30)])
        .build();
    assert_eq!(task.id(), "report");
    assert_eq!(*task.id_ref(), "report");
    assert_eq!(
        task.schedule().next_occurrence(dt(2022, 4, 4, 18, 1, 14)),
        Some(dt(2022, 4, 4, 18, 1, 30))
    );
}
