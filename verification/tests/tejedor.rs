use cumulos::negocio::{sembrar, Negocio};
use cumulos::tejedor::{buscador, pesar, puede_tejer, tejedor, Edge};
use ordered_float::OrderedFloat;

/// The edge between `p` and `q` of length `d`.
fn arista(p: usize, q: usize, d: f64) -> Edge {
    Edge { p, q, distancia: d.to_bits() }
}

fn etiquetas_en(datos: &Vec<Negocio>) -> Vec<Option<usize>> {
    datos.iter().map(|n| n.cluster).collect()
}

/// An arena of `n` entities with the labels given as (position, label).
fn arena_etiquetada(n: usize, etiquetas: &[(usize, usize)]) -> Vec<Negocio> {
    let mut datos: Vec<Negocio> = sembrar(n);
    for (i, c) in etiquetas.iter() {
        datos[*i].cluster = Some(*c);
    }
    datos
}

#[test]
fn of_two_equal_crossing_edges_the_first_fires() {
    // The entity at 1 lies between two labelled ones, equally far from both.
    let datos = arena_etiquetada(3, &[(0, 10), (2, 20)]);
    let edges: Vec<Edge> = vec![arista(2, 1, 7.5), arista(0, 1, 7.5)];
    assert_eq!(buscador(&datos, &edges), Some(edges[0]));
    let mut datos = datos;
    assert_eq!(tejedor(&edges, &mut datos), 1);
    assert_eq!(etiquetas_en(&datos), vec![Some(10), Some(20), Some(20)]);

    // The same edges built in the other order.
    let mut datos = arena_etiquetada(3, &[(0, 10), (2, 20)]);
    let edges: Vec<Edge> = vec![arista(0, 1, 7.5), arista(2, 1, 7.5)];
    assert_eq!(buscador(&datos, &edges), Some(edges[0]));
    assert_eq!(tejedor(&edges, &mut datos), 1);
    assert_eq!(etiquetas_en(&datos), vec![Some(10), Some(10), Some(20)]);
}

#[test]
fn a_second_run_of_the_merger_propagates_nothing() {
    let mut datos = arena_etiquetada(5, &[(0, 0), (4, 1)]);
    let edges: Vec<Edge> =
        vec![arista(0, 1, 3.0), arista(1, 2, 1.0), arista(2, 3, 2.0), arista(3, 4, 2.5)];
    assert_eq!(tejedor(&edges, &mut datos), 3);
    let primera = datos.clone();
    assert_eq!(buscador(&datos, &edges), None);
    assert_eq!(tejedor(&edges, &mut datos), 0);
    assert_eq!(datos, primera);
}

#[test]
fn the_cheapest_crossing_edge_anywhere_fires_next() {
    // A chain 0 - 1 - 2 - 3 with labels at both ends.  The far cluster's cheap edge
    // fires first and then carries its label on to the entity at 1, which is nearer
    // to the other cluster than the edge from there is cheap.
    let mut datos = arena_etiquetada(4, &[(0, 0), (3, 1)]);
    let edges: Vec<Edge> = vec![arista(0, 1, 5.0), arista(1, 2, 1.0), arista(2, 3, 2.0)];
    assert_eq!(buscador(&datos, &edges), Some(edges[2]));
    assert_eq!(tejedor(&edges, &mut datos), 2);
    assert_eq!(etiquetas_en(&datos), vec![Some(0), Some(1), Some(1), Some(1)]);
}

#[test]
fn an_edge_with_both_or_neither_end_labelled_is_ignored() {
    let datos = arena_etiquetada(4, &[(0, 0), (1, 1)]);
    let edges: Vec<Edge> = vec![arista(0, 1, 1.0), arista(2, 3, 1.0), arista(2, 2, 0.0)];
    assert_eq!(buscador(&datos, &edges), None);
    let mut datos = datos;
    assert_eq!(tejedor(&edges, &mut datos), 0);
    assert_eq!(etiquetas_en(&datos), vec![Some(0), Some(1), None, None]);
}

#[test]
fn the_label_goes_from_the_labelled_end_to_the_other() {
    let mut datos = arena_etiquetada(2, &[(1, 5)]);
    assert_eq!(tejedor(&vec![arista(0, 1, 1.0)], &mut datos), 1);
    assert_eq!(etiquetas_en(&datos), vec![Some(5), Some(5)]);

    let mut datos = arena_etiquetada(2, &[(0, 5)]);
    assert_eq!(tejedor(&vec![arista(0, 1, 1.0)], &mut datos), 1);
    assert_eq!(etiquetas_en(&datos), vec![Some(5), Some(5)]);
}

#[test]
fn merging_never_replaces_a_label_and_touches_labels_only() {
    let mut datos = arena_etiquetada(4, &[(0, 3), (1, 4)]);
    datos[2].ranking = Some(9);
    let edges: Vec<Edge> = vec![arista(0, 1, 0.5), arista(1, 2, 1.0), arista(0, 2, 2.0)];
    assert_eq!(tejedor(&edges, &mut datos), 1);
    assert_eq!(etiquetas_en(&datos), vec![Some(3), Some(4), Some(4), None]);
    assert_eq!(datos[2].ranking, Some(9));
    assert_eq!(datos[3], Negocio::nuevo(3));
}

#[test]
fn without_a_label_nothing_spreads() {
    let mut datos: Vec<Negocio> = sembrar(3);
    let edges: Vec<Edge> = vec![arista(0, 1, 1.0), arista(1, 2, 1.0)];
    assert_eq!(buscador(&datos, &edges), None);
    assert_eq!(tejedor(&edges, &mut datos), 0);
    assert_eq!(etiquetas_en(&datos), vec![None, None, None]);
    assert_eq!(buscador(&datos, &Vec::new()), None);
}

#[test]
fn the_search_agrees_with_the_least_ordered_float() {
    let largos: Vec<f64> = vec![3.25, 0.0, 7.0, 1.5, 1.5, 0.125, 1e12, 0.125, 2.0];
    let n: usize = largos.len() + 1;
    // The labelled entity at 0 is joined to every other; each pattern of which
    // of the others are labelled gives another set of crossing edges.
    let edges: Vec<Edge> = largos.iter().enumerate().map(|(k, d)| arista(0, k + 1, *d)).collect();
    for patron in 0..(1usize << largos.len()) {
        let mut datos: Vec<Negocio> = sembrar(n);
        datos[0].cluster = Some(0);
        for k in 0..largos.len() {
            if patron & (1 << k) != 0 {
                datos[k + 1].cluster = Some(1);
            }
        }
        let esperada: Option<usize> = (0..largos.len())
            .filter(|k| datos[*k + 1].cluster.is_none())
            .min_by_key(|k| OrderedFloat(largos[*k]));
        assert_eq!(buscador(&datos, &edges), esperada.map(|k| edges[k]));
    }
}

#[test]
fn every_pair_gets_its_weight() {
    let pares: Vec<(usize, usize)> = vec![(0, 1), (2, 1), (2, 0)];
    let pesos: Vec<u64> = vec![30, 10, 20];
    assert_eq!(
        pesar(&pares, &pesos),
        vec![
            Edge { p: 0, q: 1, distancia: 30 },
            Edge { p: 2, q: 1, distancia: 10 },
            Edge { p: 2, q: 0, distancia: 20 },
        ]
    );
    assert_eq!(pesar(&Vec::new(), &Vec::new()), Vec::new());
}

#[test]
fn merging_is_refused_on_edges_that_leave_the_arena() {
    let datos: Vec<Negocio> = sembrar(3);
    assert!(puede_tejer(&vec![arista(0, 1, 1.0), arista(1, 2, 1.0)], &datos));
    assert!(!puede_tejer(&vec![arista(0, 1, 1.0), arista(1, 3, 1.0)], &datos));
    assert!(!puede_tejer(&vec![arista(3, 1, 1.0)], &datos));
    assert!(puede_tejer(&Vec::new(), &Vec::new()));
}
