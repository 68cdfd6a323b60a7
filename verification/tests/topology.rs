use copper_mind::error::ConfigError;
use copper_mind::topology::layer_shapes;

#[test]
fn test_network_structure() {
    let network_structure = layer_shapes(4, &[2], 1);
    assert_eq!(network_structure, Ok(vec![vec![4; 2], vec![2; 1]]));
}

#[test]
fn network_without_hidden_layers_is_one_layer() {
    assert_eq!(layer_shapes(3, &[], 2), Ok(vec![vec![3, 3]]));
}

#[test]
fn each_layer_takes_the_width_of_the_one_before() {
    let shapes = layer_shapes(784, &[50, 20], 10).unwrap();
    assert_eq!(shapes.len(), 3);
    assert_eq!(shapes[0], vec![784; 50]);
    assert_eq!(shapes[1], vec![50; 20]);
    assert_eq!(shapes[2], vec![20; 10]);
}

#[test]
fn layers_chain_for_any_hidden_widths() {
    let input_size: usize = 5;
    let output_size: usize = 3;
    let hidden: [usize; 4] = [7, 1, 4, 2];
    let shapes = layer_shapes(input_size, &hidden, output_size).unwrap();
    assert_eq!(shapes.len(), hidden.len() + 1);
    let mut feeding: usize = input_size;
    for layer in &shapes {
        assert!(layer.iter().all(|weights| *weights == feeding));
        feeding = layer.len();
    }
    assert_eq!(feeding, output_size);
}

#[test]
fn zero_width_hidden_layer_leaves_next_layer_without_weights() {
    assert_eq!(layer_shapes(2, &[0], 1), Ok(vec![vec![], vec![0]]));
}

#[test]
fn network_without_inputs_is_rejected() {
    assert_eq!(layer_shapes(0, &[2], 1), Err(ConfigError::EmptyInput));
}

#[test]
fn network_without_outputs_is_rejected() {
    assert_eq!(layer_shapes(4, &[2], 0), Err(ConfigError::EmptyOutput));
}

#[test]
fn missing_inputs_are_reported_before_missing_outputs() {
    assert_eq!(layer_shapes(0, &[], 0), Err(ConfigError::EmptyInput));
}

#[test]
fn layout_leaves_the_hidden_widths_untouched() {
    let hidden: Vec<usize> = vec![3, 2];
    let first = layer_shapes(4, &hidden, 1);
    let second = layer_shapes(4, &hidden, 1);
    assert_eq!(hidden, vec![3, 2]);
    assert_eq!(first, second);
}
