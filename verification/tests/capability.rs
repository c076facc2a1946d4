use yew_data_grid::data_grid::{
    data_grid, refresh, row_ids, GridData, GridDataColumn, GridDataColumnProps, RowState,
};
use yew_data_grid::hooks::pagination::Pagination;

struct Task {
    id: u32,
    name: String,
    description: String,
}

#[derive(Copy, Clone, Debug, PartialEq, Eq, Hash)]
enum TaskFields {
    Id,
    Name,
    Description,
}

impl GridDataColumn for TaskFields {
    type RowType = Task;

    fn get_config(&self) -> GridDataColumnProps {
        match self {
            TaskFields::Id => GridDataColumnProps {
                header_name: "Id".to_string(),
                width: 50,
                editable: false,
                sortable: true,
            },
            TaskFields::Name => GridDataColumnProps {
                header_name: "Task Name".to_string(),
                width: 150,
                editable: true,
                sortable: true,
            },
            TaskFields::Description => GridDataColumnProps {
                header_name: "Description Testing".to_string(),
                width: 200,
                editable: true,
                sortable: true,
            },
        }
    }

    fn get_value(&self, row: &Task) -> String {
        match self {
            TaskFields::Id => row.id.to_string(),
            TaskFields::Name => row.name.to_string(),
            TaskFields::Description => row.description.to_string(),
        }
    }
}

impl GridData for Task {
    type IdType = u32;
    type ColumnType = TaskFields;

    fn get_id(&self) -> String {
        self.id.to_string()
    }
}

#[test]
fn data_grid_column_and_row_api() {
    let row_instance = Task {
        id: 1,
        name: "Task 1".to_string(),
        description: "Description 1".to_string(),
    };
    assert_eq!(TaskFields::Id.get_value(&row_instance), "1");
    assert_eq!(TaskFields::Name.get_value(&row_instance), "Task 1");
    assert_eq!(TaskFields::Description.get_value(&row_instance), "Description 1");
    assert_eq!(TaskFields::Id.get_value(&row_instance), row_instance.get_value(TaskFields::Id));
}

fn task(id: u32) -> Task {
    Task { id, name: format!("Task {}", id), description: format!("Description {}", id) }
}

#[test]
fn get_field_is_the_column() {
    assert_eq!(TaskFields::Name.get_field(), TaskFields::Name);
}

#[test]
fn row_ids_are_the_identities_in_order() {
    let rows = vec![task(3), task(1), task(2)];
    assert_eq!(row_ids(&rows), vec!["3", "1", "2"]);
    let none: Vec<Task> = vec![];
    assert_eq!(row_ids(&none).len(), 0);
}

#[test]
fn grid_shows_the_rows_of_the_page() {
    let rows: Vec<Task> = (1..=12).map(task).collect();
    let columns = vec![TaskFields::Id, TaskFields::Name, TaskFields::Description];
    let (state, pg, outcome) =
        refresh(RowState::new(), Pagination::new(0, 5), &row_ids(&rows), 5);
    assert_eq!(outcome, Ok(true));
    let view = data_grid(&rows, &columns, &state, &pg.jump_to(3));
    assert_eq!(view.header.len(), 3);
    assert_eq!(view.header[1].header_name, "Task Name");
    assert_eq!(view.header[1].width, 150);
    assert!(!view.header[0].editable);
    assert!(view.header[2].sortable);
    assert_eq!(view.rows.len(), 2);
    assert_eq!(view.rows[0].key, "11");
    assert_eq!(view.rows[0].index, 10);
    assert_eq!(view.rows[0].cells, vec!["11", "Task 11", "Description 11"]);
    assert_eq!(view.rows[1].key, "12");
    assert_eq!(view.rows[1].index, 11);
    assert_eq!(view.rows[1].cells, vec!["12", "Task 12", "Description 12"]);
    let first = data_grid(&rows, &columns, &state, &pg);
    assert_eq!(first.rows.len(), 5);
    assert_eq!(first.rows[4].cells, vec!["5", "Task 5", "Description 5"]);
}

#[test]
fn grid_without_rows_or_columns() {
    let rows: Vec<Task> = vec![];
    let columns: Vec<TaskFields> = vec![];
    let state = RowState::new();
    let view = data_grid(&rows, &columns, &state, &Pagination::new(0, 5));
    assert_eq!(view.header.len(), 0);
    assert_eq!(view.rows.len(), 0);
    let some: Vec<Task> = vec![task(1)];
    let (state, pg, _) = refresh(state, Pagination::new(0, 5), &row_ids(&some), 5);
    let view = data_grid(&some, &columns, &state, &pg);
    assert_eq!(view.rows.len(), 1);
    assert_eq!(view.rows[0].cells.len(), 0);
}

#[test]
fn grid_shows_a_row_beyond_the_collection_without_texts() {
    let rows: Vec<Task> = (1..=4).map(task).collect();
    let columns = vec![TaskFields::Id, TaskFields::Name];
    let (state, pg, _) = refresh(RowState::new(), Pagination::new(0, 5), &row_ids(&rows), 5);
    let fewer: Vec<Task> = (1..=2).map(task).collect();
    let (state, pg, outcome) = refresh(state, pg, &row_ids(&fewer), 5);
    assert!(outcome.is_err());
    let view = data_grid(&fewer, &columns, &state, &pg);
    assert_eq!(view.rows.len(), 4);
    assert_eq!(view.rows[1].cells, vec!["2", "Task 2"]);
    assert_eq!(view.rows[2].key, "3");
    assert_eq!(view.rows[2].index, 2);
    assert_eq!(view.rows[2].cells.len(), 0);
    assert_eq!(view.rows[3].cells.len(), 0);
}
