use cumulos::consulta::VECINOS;
use cumulos::negocio::{sembrar, splitter, Negocio};
use cumulos::totems::{puede_resolver, resolver, totems};

fn etiquetas_de(datos: &Vec<Negocio>) -> Vec<Option<usize>> {
    datos.iter().map(|n| n.cluster).collect()
}

#[test]
fn a_fill_made_early_in_the_pass_feeds_a_later_one() {
    // A labelled entity at 0, then three unlabelled ones in a row at 1, 2 and 3, and
    // a far one at 4.  Only the one at 1 has the labelled entity among its
    // neighbours; the one at 2 sees the one at 1, the one at 3 sees the one at 2.
    let mut datos: Vec<Negocio> = sembrar(5);
    datos[0].cluster = Some(6);
    let (_, vacios) = splitter(&datos);
    assert_eq!(vacios, vec![1, 2, 3, 4]);
    let vecindarios: Vec<Vec<usize>> = vec![vec![1, 2, 0], vec![2, 1, 3], vec![3, 2], vec![4]];
    totems(&vacios, &vecindarios, &mut datos);
    assert_eq!(etiquetas_de(&datos), vec![Some(6), Some(6), Some(6), Some(6), None]);
}

#[test]
fn the_order_of_the_pass_decides() {
    // The same entities resolved from the far end: the labelled entity is seen by the
    // last one resolved only, so the others find nothing.
    let mut datos: Vec<Negocio> = sembrar(4);
    datos[0].cluster = Some(6);
    let vacios: Vec<usize> = vec![3, 2, 1];
    let vecindarios: Vec<Vec<usize>> = vec![vec![3, 2], vec![2, 1, 3], vec![1, 2, 0]];
    totems(&vacios, &vecindarios, &mut datos);
    assert_eq!(etiquetas_de(&datos), vec![Some(6), Some(6), None, None]);
}

#[test]
fn the_nearest_labelled_neighbour_gives_its_label() {
    let mut datos: Vec<Negocio> = sembrar(4);
    datos[1].cluster = Some(3);
    datos[2].cluster = Some(0);
    resolver(&mut datos, 0, &vec![0, 3, 2, 1]);
    assert_eq!(etiquetas_de(&datos), vec![Some(0), Some(3), Some(0), None]);
}

#[test]
fn an_entity_with_no_labelled_neighbour_stays_unlabelled() {
    let mut datos: Vec<Negocio> = sembrar(3);
    datos[2].cluster = Some(1);
    resolver(&mut datos, 0, &vec![0, 1]);
    assert_eq!(etiquetas_de(&datos), vec![None, None, Some(1)]);
    resolver(&mut datos, 1, &vec![]);
    assert_eq!(etiquetas_de(&datos), vec![None, None, Some(1)]);
}

#[test]
fn gap_filling_never_replaces_a_label() {
    let mut datos: Vec<Negocio> = sembrar(2);
    datos[0].cluster = Some(4);
    datos[1].cluster = Some(5);
    totems(&vec![0], &vec![vec![1, 0]], &mut datos);
    assert_eq!(etiquetas_de(&datos), vec![Some(4), Some(5)]);
}

#[test]
fn gap_filling_touches_labels_only() {
    let mut datos: Vec<Negocio> = sembrar(2);
    datos[0].ranking = Some(3);
    datos[1].cluster = Some(5);
    datos[1].ranking = Some(1);
    totems(&vec![0], &vec![vec![0, 1]], &mut datos);
    assert_eq!(datos[0], Negocio { indice: 0, acces: None, ranking: Some(3), cluster: Some(5) });
    assert_eq!(datos[1], Negocio { indice: 1, acces: None, ranking: Some(1), cluster: Some(5) });
}

#[test]
fn only_the_first_two_thousand_neighbours_are_scanned() {
    let mut datos: Vec<Negocio> = sembrar(2);
    datos[1].cluster = Some(2);
    let mut lista: Vec<usize> = vec![0; VECINOS];
    lista.push(1);
    resolver(&mut datos, 0, &lista);
    assert_eq!(etiquetas_de(&datos), vec![None, Some(2)]);

    let mut lista: Vec<usize> = vec![0; VECINOS - 1];
    lista.push(1);
    resolver(&mut datos, 0, &lista);
    assert_eq!(etiquetas_de(&datos), vec![Some(2), Some(2)]);
}

#[test]
fn gap_filling_is_refused_on_answers_that_do_not_fit() {
    let datos: Vec<Negocio> = sembrar(3);
    assert!(puede_resolver(&vec![0, 2], &vec![vec![0, 1], vec![2]], &datos));
    assert!(!puede_resolver(&vec![0, 2], &vec![vec![0, 1]], &datos));
    assert!(!puede_resolver(&vec![0, 3], &vec![vec![0, 1], vec![2]], &datos));
    assert!(!puede_resolver(&vec![0, 2], &vec![vec![0, 1], vec![3]], &datos));
}
