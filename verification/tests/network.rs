use kith::layout::ChartMode;
use kith::network::{network_layers, LRef};
use kith::output::PersonNode;
use kith::walk::{NodeRef, RelEdge, RelativeGraph, UnionNode};

fn person(n: u64) -> PersonNode {
    PersonNode { node: NodeRef(n), focal: n == 1, display_name: format!("P{}", n), birth_year: None, death_year: None }
}

fn partner(p: u64, u: u64) -> RelEdge {
    RelEdge::Partner { person: NodeRef(p), union: NodeRef(u) }
}

fn descent(u: u64, c: u64) -> RelEdge {
    RelEdge::Descent { union: NodeRef(u), child: NodeRef(c) }
}

fn three_generations() -> RelativeGraph {
    RelativeGraph {
        mode: ChartMode::Network,
        persons: (1..=5).map(person).collect(),
        unions: vec![
            UnionNode { node: NodeRef(11), partners: vec![NodeRef(1), NodeRef(2)] },
            UnionNode { node: NodeRef(12), partners: vec![NodeRef(3), NodeRef(4)] },
            UnionNode { node: NodeRef(13), partners: vec![NodeRef(1)] },
        ],
        edges: vec![
            partner(1, 11),
            partner(2, 11),
            descent(11, 3),
            partner(3, 12),
            partner(4, 12),
            descent(12, 5),
            partner(1, 13),
            descent(13, 5),
        ],
    }
}

#[test]
fn persons_sit_on_even_layers_and_unions_just_below_their_partners() {
    let net = network_layers(&three_generations()).expect("fits");
    let layers: Vec<i32> = net.person_layers.iter().map(|p| p.1).collect();
    assert_eq!(layers, vec![0, 0, 2, 2, 4], "a spouse without parents joins its partner's rank");
    let unions: Vec<(u64, i32)> = net.union_layers.iter().map(|u| (u.0 .0, u.1)).collect();
    assert_eq!(unions, vec![(11, 1), (12, 3), (13, 1)]);
}

#[test]
fn a_long_edge_is_split_by_one_dummy_per_crossed_layer() {
    let net = network_layers(&three_generations()).expect("fits");
    let p = |n: u64| LRef::Person(NodeRef(n));
    let u = |n: u64| LRef::Union(NodeRef(n));
    assert_eq!(net.dummy_layers, vec![2, 3]);
    assert_eq!(
        net.links,
        vec![
            (p(1), u(11)),
            (p(2), u(11)),
            (u(11), p(3)),
            (p(3), u(12)),
            (p(4), u(12)),
            (u(12), p(5)),
            (p(1), u(13)),
            (u(13), LRef::Dummy(0)),
            (LRef::Dummy(0), LRef::Dummy(1)),
            (LRef::Dummy(1), p(5)),
        ]
    );
    assert_eq!(net.chains, vec![((NodeRef(13), NodeRef(5)), vec![0, 1])]);
    assert_eq!(
        net.order,
        vec![
            vec![p(1), p(2)],
            vec![u(11), u(13)],
            vec![p(3), p(4), LRef::Dummy(0)],
            vec![u(12), LRef::Dummy(1)],
            vec![p(5)],
        ]
    );
}

#[test]
fn a_partnerless_union_sits_just_above_its_shallowest_child() {
    let g = RelativeGraph {
        mode: ChartMode::Network,
        persons: vec![person(1), person(2)],
        unions: vec![
            UnionNode { node: NodeRef(11), partners: vec![NodeRef(1)] },
            UnionNode { node: NodeRef(12), partners: vec![] },
        ],
        edges: vec![partner(1, 11), descent(11, 2), descent(12, 2)],
    };
    let net = network_layers(&g).expect("fits");
    assert_eq!(net.union_layers[1], (NodeRef(12), 1), "child rank 1, so rank 0");
    assert!(net.dummy_layers.is_empty());
}

#[test]
fn a_long_line_of_descent_is_laid_out_without_a_size_limit() {
    let n: u64 = 2000;
    let mut g = RelativeGraph { mode: ChartMode::Network, persons: (1..=n).map(person).collect(), unions: vec![], edges: vec![] };
    for k in 1..n {
        let u = 100_000 + k;
        g.unions.push(UnionNode { node: NodeRef(u), partners: vec![NodeRef(k)] });
        g.edges.push(partner(k, u));
        g.edges.push(descent(u, k + 1));
    }
    let net = network_layers(&g).expect("fits");
    assert_eq!(net.person_layers[1999].1, 2 * 1999);
    assert_eq!(net.order.len(), 2 * 1999 + 1);
    assert!(net.dummy_layers.is_empty());
}
