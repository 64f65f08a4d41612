use comp3931::scenes::dragoncurve::{self, Curve};
use comp3931::scenes::peano::{self, Peano};
use comp3931::scenes::plant::{self, Plant};
use comp3931::scenes::sierpinski::{self, Sierpinski};

fn curve_str(s: &[dragoncurve::Curve]) -> String {
    s.iter()
        .map(|c| match c {
            Curve::F => 'F',
            Curve::G => 'G',
            Curve::X => '+',
            Curve::Y => '-',
        })
        .collect()
}

#[test]
fn dragon_curve_first_iterations() {
    assert_eq!(curve_str(&dragoncurve::actions(0)), "F");
    assert_eq!(curve_str(&dragoncurve::actions(1)), "F+G");
    assert_eq!(curve_str(&dragoncurve::actions(2)), "F+G+F-G");
    assert_eq!(curve_str(&dragoncurve::actions(3)), "F+G+F-G+F+G-F-G");
}

#[test]
fn dragon_curve_doubles_its_strokes() {
    for n in 0..10u32 {
        let strokes = dragoncurve::actions(n)
            .iter()
            .filter(|c| matches!(c, Curve::F | Curve::G))
            .count();
        assert_eq!(strokes, 1 << n);
    }
}

#[test]
fn dragon_curve_lengths() {
    for n in 0..12u32 {
        let r = dragoncurve::actions(n);
        assert_eq!(r.len(), (1usize << (n + 1)) - 1);
        let turns = r.iter().filter(|c| matches!(c, Curve::X | Curve::Y)).count();
        assert_eq!(turns, (1usize << n) - 1);
        for (j, c) in r.iter().enumerate() {
            assert_eq!(matches!(c, Curve::F | Curve::G), j % 2 == 0);
        }
    }
}

#[test]
fn sierpinski_counts() {
    for n in 0..8u32 {
        let r = sierpinski::actions(n);
        let p = 3usize.pow(n);
        assert_eq!(r.len(), 5 * p);
        assert_eq!(r.iter().filter(|&&c| c == Sierpinski::F).count(), p);
        assert_eq!(r.iter().filter(|&&c| c == Sierpinski::G).count(), 2 * p);
    }
}

#[test]
fn peano_counts() {
    for n in 0..4u32 {
        let r = peano::actions(n);
        let p = 9usize.pow(n);
        assert_eq!(2 * r.len() + 3, 5 * p);
        assert_eq!(r.iter().filter(|&&c| c == Peano::F).count() + 1, p);
        let turns = r.iter().filter(|&&c| c == Peano::Left || c == Peano::Right).count();
        assert_eq!(2 * turns + 1, p);
    }
}

#[test]
fn sierpinski_first_iteration() {
    assert_eq!(sierpinski::actions(0), vec![Sierpinski::F, Sierpinski::Y, Sierpinski::G, Sierpinski::Y, Sierpinski::G]);
    assert_eq!(sierpinski::actions(1), vec![
        Sierpinski::F, Sierpinski::Y, Sierpinski::G, Sierpinski::X, Sierpinski::F, Sierpinski::X, Sierpinski::G, Sierpinski::Y, Sierpinski::F, Sierpinski::Y, Sierpinski::G, Sierpinski::G, Sierpinski::Y, Sierpinski::G, Sierpinski::G
    ]);
}

#[test]
fn sierpinski_lengths() {
    // After one step there are 3 F, 6 G and 6 turns; F → 9 symbols, G → 2
    assert_eq!(sierpinski::actions(1).len(), 15);
    assert_eq!(sierpinski::actions(2).len(), 3 * 9 + 6 * 2 + 6);
}

#[test]
fn peano_first_iteration() {
    assert_eq!(peano::actions(0), vec![Peano::X]);
    assert_eq!(peano::actions(1), vec![
        Peano::X, Peano::F, Peano::Y, Peano::F, Peano::X, Peano::Right, Peano::F, Peano::Right, Peano::Y, Peano::F, Peano::X, Peano::F, Peano::Y, Peano::Left, Peano::F, Peano::Left, Peano::X, Peano::F, Peano::Y, Peano::F, Peano::X
    ]);
}

#[test]
fn peano_growth() {
    // X and Y each rewrite to 21 symbols, 9 of them X or Y
    let n2 = peano::actions(2);
    assert_eq!(n2.len(), 9 * 21 + 12);
}

#[test]
fn fractal_plant_iterations() {
    assert_eq!(plant::actions(0), vec![Plant::Right, Plant::X]);
    assert_eq!(plant::actions(1), vec![
        Plant::Right, Plant::F, Plant::Left, Plant::Push, Plant::Push, Plant::X, Plant::Pop, Plant::Right, Plant::X, Plant::Pop, Plant::Right, Plant::F, Plant::Push, Plant::Right, Plant::F, Plant::X, Plant::Pop, Plant::Left, Plant::X
    ]);
    // Brackets stay balanced at every iteration
    for n in 0..5 {
        let s = plant::actions(n);
        let opens = s.iter().filter(|&&c| c == Plant::Push).count();
        let closes = s.iter().filter(|&&c| c == Plant::Pop).count();
        assert_eq!(opens, closes);
    }
}
