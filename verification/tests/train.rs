use shallowred::train::parse_options;

fn args(list: &[&str]) -> Vec<String> {
    list.iter().map(ToString::to_string).collect()
}

#[test]
fn les_reglages_par_defaut_et_les_chemins_sont_gardes() {
    let o = parse_options(&args(&["donnees", "autre.vf"])).unwrap();
    assert_eq!(o.expected, None);
    assert_eq!((o.superbatches, o.buffer_mb, o.threads), (40, 1024, 4));
    assert_eq!(o.output, "checkpoints");
    assert_eq!(o.inputs, vec!["donnees".to_string(), "autre.vf".to_string()]);
}

#[test]
fn chaque_option_est_lue() {
    let o = parse_options(&args(&[
        "--attendu", "12:3456", "--superlots", "7", "--sortie", "ici", "--memoire", "64", "--fils",
        "2", "a.vf",
    ]))
    .unwrap();
    assert_eq!(o.expected, Some((12, 3456)));
    assert_eq!((o.superbatches, o.buffer_mb, o.threads), (7, 64, 2));
    assert_eq!(o.output, "ici");
    assert_eq!(o.inputs, vec!["a.vf".to_string()]);
}

#[test]
fn chaque_erreur_a_son_message() {
    let err = |list: &[&str]| parse_options(&args(list)).err().unwrap();
    assert_eq!(err(&["a.vf", "--fils"]), "--fils attend une valeur");
    assert_eq!(err(&["--attendu", "12", "a.vf"]), "--attendu s'écrit PARTIES:POSITIONS");
    assert_eq!(err(&["--attendu", "x:3", "a.vf"]), "--attendu : parties illisibles");
    assert_eq!(err(&["--attendu", "1:2:3", "a.vf"]), "--attendu : positions illisibles");
    assert_eq!(err(&["--superlots", "-1", "a.vf"]), "--superlots attend un entier");
    assert_eq!(err(&["--memoire", "beaucoup", "a.vf"]), "--memoire attend un entier (Mio)");
    assert_eq!(err(&["--fils", "", "a.vf"]), "--fils attend un entier");
    assert_eq!(err(&["--fils", "3"]), "aucun fichier de données");
    assert_eq!(err(&[]), "aucun fichier de données");
}
