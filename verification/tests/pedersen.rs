use pathfinder::{pedersen_hash, pedersen_p0, pedersen_p1, pedersen_p2, pedersen_p3, pedersen_p4};
use pathfinder::{CurvePoint, Fp};

fn bits_with(indices: &[usize]) -> Vec<bool> {
    let mut v = vec![false; 256];
    for &i in indices {
        v[i] = true;
    }
    v
}

#[test]
fn zero() {
    let zero = Fp::zero().into_bits();
    let expected = bits_with(&[]);

    assert_eq!(zero, expected);
}

#[test]
fn one() {
    let one = Fp::one().into_bits();

    let expected = bits_with(&[0]);

    assert_eq!(one, expected);
}

#[test]
fn two() {
    let two = Fp::one().add(&Fp::one()).into_bits();

    let expected = bits_with(&[1]);

    assert_eq!(two, expected);
}

fn curve_from_xy_str(x: &str, y: &str) -> CurvePoint {
    let x = Fp::from_str_vartime(x).expect("Curve x-value invalid");
    let y = Fp::from_str_vartime(y).expect("Curve y-value invalid");
    CurvePoint {
        x,
        y,
        infinity: false,
    }
}

fn curve_generator() -> CurvePoint {
    curve_from_xy_str(
        "874739451078007766457464989774322083649278607533249481151382481072868806602",
        "152666792071518830868575557812948353041420400780739481342941381225525861407",
    )
}

#[test]
fn double() {
    let g_double = curve_generator().double();
    let expected = curve_from_xy_str(
        "3324833730090626974525872402899302150520188025637965566623476530814354734325",
        "3147007486456030910661996439995670279305852583596209647900952752170983517249",
    );
    assert_eq!(g_double, expected);
}

#[test]
fn double_and_add() {
    let g = curve_generator();
    let g_double = g.double();
    let g_triple = g_double.add(&g);
    let expected = curve_from_xy_str(
        "1839793652349538280924927302501143912227271479439798783640887258675143576352",
        "3564972295958783757568195431080951091358810058262272733141798511604612925062",
    );
    assert_eq!(g_triple, expected);
}

#[test]
fn multiply() {
    let three = Fp::one().add(&Fp::one()).add(&Fp::one()).into_bits();
    let g = curve_generator();
    let g_triple = g.multiply(&three);
    let expected = curve_from_xy_str(
        "1839793652349538280924927302501143912227271479439798783640887258675143576352",
        "3564972295958783757568195431080951091358810058262272733141798511604612925062",
    );
    assert_eq!(g_triple, expected);
}

#[test]
fn p0() {
    let expected = curve_from_xy_str(
        "2089986280348253421170679821480865132823066470938446095505822317253594081284",
        "1713931329540660377023406109199410414810705867260802078187082345529207694986",
    );

    assert_eq!(pedersen_p0(), expected);
}

#[test]
fn p1() {
    let expected = curve_from_xy_str(
        "996781205833008774514500082376783249102396023663454813447423147977397232763",
        "1668503676786377725805489344771023921079126552019160156920634619255970485781",
    );

    assert_eq!(pedersen_p1(), expected);
}

#[test]
fn p2() {
    let expected = curve_from_xy_str(
        "2251563274489750535117886426533222435294046428347329203627021249169616184184",
        "1798716007562728905295480679789526322175868328062420237419143593021674992973",
    );

    assert_eq!(pedersen_p2(), expected);
}

#[test]
fn p3() {
    let expected = curve_from_xy_str(
        "2138414695194151160943305727036575959195309218611738193261179310511854807447",
        "113410276730064486255102093846540133784865286929052426931474106396135072156",
    );

    assert_eq!(pedersen_p3(), expected);
}

#[test]
fn p4() {
    let expected = curve_from_xy_str(
        "2379962749567351885752724891227938183011949129833673362440656643086021394946",
        "776496453633298175483985398648758586525933812536653089401905292063708816422",
    );

    assert_eq!(pedersen_p4(), expected);
}

#[test]
fn hash() {
    // Test vector from https://github.com/starkware-libs/crypto-cpp/blob/master/src/starkware/crypto/pedersen_hash_test.cc
    let a = Fp::from_str_vartime(
        "1740729136829561885683894917751815192814966525555656371386868611731128807883",
    )
    .unwrap();
    let b = Fp::from_str_vartime(
        "919869093895560023824014392670608914007817594969197822578496829435657368346",
    )
    .unwrap();

    let hash = pedersen_hash(a, b);

    let expected = Fp::from_str_vartime(
        "1382171651951541052082654537810074813456022260470662576358627909045455537762",
    )
    .unwrap();

    assert_eq!(hash, expected);
}

#[test]
fn field_add_sub_mul() {
    let two = Fp::from_str_vartime("2").unwrap();
    let three = Fp::from_str_vartime("3").unwrap();
    let five = Fp::from_str_vartime("5").unwrap();
    let six = Fp::from_str_vartime("6").unwrap();
    assert_eq!(two.add(&three), five);
    assert_eq!(five.sub(&three), two);
    assert_eq!(two.mul(&three), six);
    // subtraction wraps around the modulus: 0 - 1 == p - 1
    let p_minus_one = Fp::from_str_vartime(
        "3618502788666131213697322783095070105623107215331596699973092056135872020480",
    )
    .unwrap();
    assert_eq!(Fp::zero().sub(&Fp::one()), p_minus_one);
}

#[test]
fn field_invert() {
    let x = Fp::from_str_vartime("1234567891011121314151617181920").unwrap();
    assert_eq!(x.mul(&x.invert()), Fp::one());
    // zero has no inverse and maps to zero
    assert_eq!(Fp::zero().invert(), Fp::zero());
}

#[test]
fn from_str_rejects_bad_input() {
    assert!(Fp::from_str_vartime("").is_none());
    assert!(Fp::from_str_vartime("12a4").is_none());
    assert!(Fp::from_str_vartime("-5").is_none());
    assert!(Fp::from_str_vartime("17").is_some());
    // values at or above the modulus reduce
    let p_str = "3618502788666131213697322783095070105623107215331596699973092056135872020481";
    assert_eq!(Fp::from_str_vartime(p_str).unwrap(), Fp::zero());
}
