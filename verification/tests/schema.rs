use longboy::schema::{new_client_to_server_schema, new_server_to_client_schema};

#[test]
fn input_schema() {
    let schema = new_client_to_server_schema();
    assert_eq!(schema.name, "Input");
    assert_eq!(schema.mapper_port, 8081);
    assert_eq!(schema.heartbeat_period, 100);
    assert_eq!(schema.port, 8082);
}

#[test]
fn state_schema() {
    let schema = new_server_to_client_schema();
    assert_eq!(schema.name, "State");
    assert_eq!(schema.mapper_port, 8080);
    assert_eq!(schema.heartbeat_period, 100);
}

#[test]
fn ports_do_not_collide() {
    let input = new_client_to_server_schema();
    let state = new_server_to_client_schema();
    assert_ne!(input.mapper_port, input.port);
    assert_ne!(input.mapper_port, state.mapper_port);
    assert_ne!(input.port, state.mapper_port);
}
