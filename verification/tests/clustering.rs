use clusters::Algorithm;
use clusters::Clustered;
use clusters::line::ChainClustering;
use clusters::line::LinePoint;

#[test]
fn three_points_one_cluster_one_noise() {
    let algo = ChainClustering { epsilon: 2 };
    let input = [LinePoint { pos: 0 }, LinePoint { pos: 1 }, LinePoint { pos: 10 }];
    let result = algo.cluster(&input);
    let found = result.clusters();
    assert_eq!(found.len(), 1);
    assert_eq!(found[0], vec![LinePoint { pos: 0 }, LinePoint { pos: 1 }]);
    assert_eq!(result.noise(), vec![LinePoint { pos: 10 }]);
}

#[test]
fn empty_input_yields_empty_result() {
    let algo = ChainClustering { epsilon: 2 };
    let input: [LinePoint; 0] = [];
    let result = algo.cluster(&input);
    assert!(result.clusters().is_empty());
    assert!(result.noise().is_empty());
}

#[test]
fn partition_covers_input_exactly() {
    let algo = ChainClustering { epsilon: 2 };
    let positions: [u32; 6] = [0, 1, 2, 10, 11, 30];
    let mut input: Vec<LinePoint> = Vec::new();
    for &pos in positions.iter() {
        input.push(LinePoint { pos });
    }
    let result = algo.cluster(&input);
    let mut all: Vec<u32> = Vec::new();
    for cluster in result.clusters() {
        for p in cluster {
            all.push(p.pos);
        }
    }
    for p in result.noise() {
        all.push(p.pos);
    }
    assert_eq!(all.len(), positions.len());
    all.sort();
    assert_eq!(all, vec![0, 1, 2, 10, 11, 30]);
}

#[test]
fn repeated_reads_agree() {
    let algo = ChainClustering { epsilon: 3 };
    let input = [LinePoint { pos: 5 }, LinePoint { pos: 7 }, LinePoint { pos: 20 }];
    let result = algo.cluster(&input);
    assert_eq!(result.clusters(), result.clusters());
    assert_eq!(result.noise(), result.noise());
}

#[test]
fn boundary_distance_joins_cluster() {
    let algo = ChainClustering { epsilon: 2 };
    let input = [LinePoint { pos: 0 }, LinePoint { pos: 2 }];
    let result = algo.cluster(&input);
    assert_eq!(result.clusters(), vec![vec![LinePoint { pos: 0 }, LinePoint { pos: 2 }]]);
    assert!(result.noise().is_empty());
}

#[test]
fn zero_epsilon_groups_only_duplicates() {
    let algo = ChainClustering { epsilon: 0 };
    let input = [LinePoint { pos: 5 }, LinePoint { pos: 5 }, LinePoint { pos: 7 }];
    let result = algo.cluster(&input);
    assert_eq!(result.clusters(), vec![vec![LinePoint { pos: 5 }, LinePoint { pos: 5 }]]);
    assert_eq!(result.noise(), vec![LinePoint { pos: 7 }]);
}

#[test]
fn single_point_is_noise() {
    let algo = ChainClustering { epsilon: 1000 };
    let input = [LinePoint { pos: 42 }];
    let result = algo.cluster(&input);
    assert!(result.clusters().is_empty());
    assert_eq!(result.noise(), vec![LinePoint { pos: 42 }]);
}

#[test]
fn all_points_form_one_cluster() {
    let algo = ChainClustering { epsilon: 5 };
    let input = [LinePoint { pos: 1 }, LinePoint { pos: 2 }, LinePoint { pos: 3 }];
    let result = algo.cluster(&input);
    assert_eq!(
        result.clusters(),
        vec![vec![LinePoint { pos: 1 }, LinePoint { pos: 2 }, LinePoint { pos: 3 }]]
    );
    assert!(result.noise().is_empty());
}
