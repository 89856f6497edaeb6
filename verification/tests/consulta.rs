use cumulos::consulta::{lista_en_rango, listas_en_rango, tope, VECINOS};
use cumulos::jardinero::{vecinos_en_rango, Vecino};

#[test]
fn two_thousand_neighbours_are_looked_at() {
    assert_eq!(VECINOS, 2000);
}

#[test]
fn no_more_of_a_list_is_read_than_was_asked_for() {
    assert_eq!(tope(10, 3), 3);
    assert_eq!(tope(3, 10), 3);
    assert_eq!(tope(3, 3), 3);
    assert_eq!(tope(0, 5), 0);
    assert_eq!(tope(5, 0), 0);
    assert_eq!(tope(usize::MAX, 2000), 2000);
}

#[test]
fn a_list_is_in_range_when_every_handle_is() {
    assert!(lista_en_rango(&vec![0, 4, 2, 4], 5));
    assert!(!lista_en_rango(&vec![0, 5, 2], 5));
    assert!(!lista_en_rango(&vec![0], 0));
    assert!(lista_en_rango(&Vec::new(), 0));
}

#[test]
fn lists_are_in_range_when_each_of_them_is() {
    assert!(listas_en_rango(&vec![vec![0, 1], Vec::new(), vec![2]], 3));
    assert!(!listas_en_rango(&vec![vec![0, 1], Vec::new(), vec![3]], 3));
    assert!(listas_en_rango(&Vec::new(), 0));
}

#[test]
fn answers_are_in_range_when_the_entities_they_name_are() {
    let cerca = Vecino { distancia: 0, indice: 1 };
    let fuera = Vecino { distancia: 0, indice: 2 };
    assert!(vecinos_en_rango(&vec![cerca, cerca], 2));
    assert!(!vecinos_en_rango(&vec![cerca, fuera], 2));
    assert!(vecinos_en_rango(&Vec::new(), 0));
}
