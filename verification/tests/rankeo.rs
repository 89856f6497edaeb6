use cumulos::accesibilidad::accesibilidad;
use cumulos::negocio::{sembrar, Acces, Negocio};
use cumulos::rankeo::{puede_rankear, rankeo, vecindad};

/// The score `s`, a whole number, as the arena holds it.
fn score(s: u64) -> Acces {
    Acces { piso: s as usize, orden: (s as f64).to_bits() }
}

/// An arena of entities with the given scores.
fn arena_con(scores: &[u64]) -> Vec<Negocio> {
    let mut datos: Vec<Negocio> = sembrar(scores.len());
    let medidas: Vec<Acces> = scores.iter().map(|s| score(*s)).collect();
    accesibilidad(&medidas, &mut datos);
    datos
}

/// Every entity has every entity as a neighbour.
fn todos_con_todos(n: usize) -> Vec<Vec<usize>> {
    (0..n).map(|_| (0..n).collect()).collect()
}

#[test]
fn rank_of_three_points_with_a_tie() {
    let mut datos = arena_con(&[10, 10, 5]);
    let clusters: usize = rankeo(&todos_con_todos(3), &mut datos);
    // No neighbour is denser than the first, and its equal is not ranked yet.
    assert_eq!(datos[0].ranking, Some(1));
    // The second finds its equal ranked.
    assert_eq!(datos[1].ranking, Some(2));
    // The third has two denser neighbours and no equal: 1 + 2 + 0.
    assert_eq!(datos[2].ranking, Some(3));
    assert_eq!(clusters, 1);
    assert_eq!(datos[0].cluster, Some(0));
    assert_eq!(datos[1].cluster, None);
    assert_eq!(datos[2].cluster, None);
}

#[test]
fn seeds_at_positions_two_and_five_are_labelled_zero_and_one() {
    let mut datos = arena_con(&[1, 2, 9, 1, 2, 8]);
    let distemp: Vec<Vec<usize>> = vec![
        vec![0, 1, 2],
        vec![1, 0, 2],
        vec![2, 1, 0],
        vec![3, 4, 5],
        vec![4, 3, 5],
        vec![5, 4, 3],
    ];
    let clusters: usize = rankeo(&distemp, &mut datos);
    assert_eq!(clusters, 2);
    let rangos: Vec<Option<usize>> = datos.iter().map(|n| n.ranking).collect();
    assert_eq!(rangos, vec![Some(3), Some(2), Some(1), Some(3), Some(2), Some(1)]);
    let etiquetas: Vec<Option<usize>> = datos.iter().map(|n| n.cluster).collect();
    assert_eq!(etiquetas, vec![None, None, Some(0), None, None, Some(1)]);
}

#[test]
fn equal_scores_rank_in_storage_order() {
    let mut datos = arena_con(&[4, 4, 4]);
    let clusters: usize = rankeo(&todos_con_todos(3), &mut datos);
    assert_eq!(datos[0].ranking, Some(1));
    assert_eq!(datos[1].ranking, Some(2));
    assert_eq!(datos[2].ranking, Some(3));
    assert_eq!(clusters, 1);
}

#[test]
fn an_entity_ranked_before_the_pass_counts_as_a_tie() {
    let mut datos = arena_con(&[4, 4]);
    datos[1].ranking = Some(7);
    rankeo(&todos_con_todos(2), &mut datos);
    // The equal at position 1 came ranked into the pass.
    assert_eq!(datos[0].ranking, Some(2));
    // It is its own neighbour and came ranked, and its equal at 0 is ranked by now.
    assert_eq!(datos[1].ranking, Some(3));
}

#[test]
fn a_neighbour_listed_twice_counts_twice() {
    let mut datos = arena_con(&[1, 5]);
    let distemp: Vec<Vec<usize>> = vec![vec![0, 1, 1], vec![1]];
    rankeo(&distemp, &mut datos);
    assert_eq!(datos[0].ranking, Some(3));
    assert_eq!(datos[1].ranking, Some(1));
}

#[test]
fn an_entity_without_neighbours_is_a_seed() {
    let mut datos = arena_con(&[1, 5]);
    let distemp: Vec<Vec<usize>> = vec![vec![], vec![]];
    let clusters: usize = rankeo(&distemp, &mut datos);
    assert_eq!(clusters, 2);
    assert_eq!(datos[0].cluster, Some(0));
    assert_eq!(datos[1].cluster, Some(1));
}

#[test]
fn only_the_neighbourhood_of_an_entity_is_read() {
    // The first entity has score 0, so 50 neighbours are read; the 51st answer names
    // a denser entity and must not count.
    let mut datos = arena_con(&[0, 3]);
    let mut lista: Vec<usize> = vec![0; 50];
    lista.push(1);
    let distemp: Vec<Vec<usize>> = vec![lista, vec![1]];
    rankeo(&distemp, &mut datos);
    assert_eq!(datos[0].ranking, Some(1));

    // With the denser entity as the 50th answer it counts.
    let mut datos = arena_con(&[0, 3]);
    let mut lista: Vec<usize> = vec![0; 49];
    lista.push(1);
    lista.push(1);
    let distemp: Vec<Vec<usize>> = vec![lista, vec![1]];
    rankeo(&distemp, &mut datos);
    assert_eq!(datos[0].ranking, Some(2));
}

#[test]
fn ranking_keeps_scores_handles_and_other_labels() {
    let mut datos = arena_con(&[2, 6, 2]);
    datos[0].cluster = Some(41);
    let antes = datos.clone();
    rankeo(&todos_con_todos(3), &mut datos);
    for i in 0..3 {
        assert_eq!(datos[i].indice, antes[i].indice);
        assert_eq!(datos[i].acces, antes[i].acces);
    }
    assert_eq!(datos[0].cluster, Some(41));
    assert_eq!(datos[1].cluster, Some(0));
    assert_eq!(datos[2].cluster, None);
}

#[test]
fn neighbourhood_size_is_three_per_unit_plus_fifty() {
    assert_eq!(vecindad(0), Some(50));
    assert_eq!(vecindad(9), Some(77));
    assert_eq!(vecindad(2000), Some(6050));
    assert_eq!(vecindad(usize::MAX), None);
    let mayor: usize = (usize::MAX - 50) / 3;
    assert_eq!(vecindad(mayor), Some(mayor * 3 + 50));
    assert_eq!(vecindad(mayor + 1), None);
}

#[test]
fn ranking_is_refused_on_answers_that_do_not_fit() {
    let datos = arena_con(&[1, 2]);
    assert!(puede_rankear(&todos_con_todos(2), &datos));
    // One list too few.
    assert!(!puede_rankear(&vec![vec![0, 1]], &datos));
    // A handle beyond the arena.
    assert!(!puede_rankear(&vec![vec![0, 2], vec![1]], &datos));
    // An entity without its score.
    let mut sin_medir: Vec<Negocio> = sembrar(2);
    assert!(!puede_rankear(&todos_con_todos(2), &sin_medir));
    accesibilidad(&vec![score(1), score(2)], &mut sin_medir);
    assert!(puede_rankear(&todos_con_todos(2), &sin_medir));
}
