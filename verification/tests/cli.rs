use facecomp::{
    encoder_model_var, is_glob_pattern, parse_backend, parse_max, resolve_encoder_model,
    resolve_threshold, Backend,
};

#[test]
fn backend_names() {
    assert_eq!(Backend::SFace.as_str(), "sface");
    assert_eq!(Backend::ArcFace.as_str(), "arcface");
    assert_eq!(Backend::default(), Backend::SFace);
}

#[test]
fn backend_is_parsed_without_regard_to_case() {
    assert_eq!(parse_backend("sface"), Ok(Backend::SFace));
    assert_eq!(parse_backend("SFACE"), Ok(Backend::SFace));
    assert_eq!(parse_backend("ArcFace"), Ok(Backend::ArcFace));
    for b in [Backend::SFace, Backend::ArcFace] {
        assert_eq!(parse_backend(b.as_str()), Ok(b));
    }
}

#[test]
fn unknown_backend_is_reported_in_lower_case() {
    assert_eq!(
        parse_backend("FaceNet"),
        Err("unknown backend `facenet` (expected `sface` or `arcface`)".to_string())
    );
    assert_eq!(
        parse_backend(" sface"),
        Err("unknown backend ` sface` (expected `sface` or `arcface`)".to_string())
    );
    assert_eq!(
        parse_backend(""),
        Err("unknown backend `` (expected `sface` or `arcface`)".to_string())
    );
}

#[test]
fn max_accepts_positive_whole_numbers() {
    assert_eq!(parse_max("5"), Ok(5));
    assert_eq!(parse_max("+12"), Ok(12));
    assert_eq!(parse_max("007"), Ok(7));
}

#[test]
fn max_zero_is_refused() {
    assert_eq!(parse_max("0"), Err("must be at least 1".to_string()));
    assert_eq!(parse_max("+0"), Err("must be at least 1".to_string()));
}

#[test]
fn max_that_is_not_a_whole_number_is_refused() {
    for s in ["abc", "", "-1", "+", "1.5", " 3", "99999999999999999999999"] {
        assert_eq!(parse_max(s), Err(format!("`{s}` is not a whole number")));
    }
}

#[test]
fn encoder_model_variables() {
    assert_eq!(encoder_model_var(Backend::SFace), "FACECOMP_ENCODER_MODEL");
    assert_eq!(encoder_model_var(Backend::ArcFace), "FACECOMP_ARCFACE_MODEL");
}

#[test]
fn explicit_encoder_model_wins() {
    assert_eq!(
        resolve_encoder_model(Some("a.onnx"), Backend::SFace, Some("b.onnx")),
        Ok("a.onnx")
    );
    assert_eq!(
        resolve_encoder_model(None, Backend::ArcFace, Some("b.onnx")),
        Ok("b.onnx")
    );
}

#[test]
fn missing_encoder_model_names_the_variable() {
    assert_eq!(
        resolve_encoder_model::<&str>(None, Backend::SFace, None),
        Err("no model for --backend sface: pass --encoder-model or set $FACECOMP_ENCODER_MODEL"
            .to_string())
    );
    assert_eq!(
        resolve_encoder_model::<&str>(None, Backend::ArcFace, None),
        Err("no model for --backend arcface: pass --encoder-model or set $FACECOMP_ARCFACE_MODEL"
            .to_string())
    );
}

#[test]
fn threshold_falls_back_to_the_backend_default() {
    assert_eq!(resolve_threshold(Some(0.5), Backend::SFace, Some(0.363)), Ok(0.5));
    assert_eq!(resolve_threshold(None, Backend::ArcFace, Some(0.239)), Ok(0.239));
    assert_eq!(
        resolve_threshold::<f64>(None, Backend::ArcFace, None),
        Err("--backend arcface has no default --threshold yet, so one must be given explicitly."
            .to_string())
    );
}

#[test]
fn glob_patterns_are_recognised() {
    assert!(is_glob_pattern("photos/*.png"));
    assert!(is_glob_pattern("img?.jpg"));
    assert!(is_glob_pattern("[ab].jpg"));
    assert!(!is_glob_pattern("photos/master.jpg"));
    assert!(!is_glob_pattern(""));
    assert!(!is_glob_pattern("日本語.jpg"));
}

#[test]
fn max_reads_back_the_decimal_text_of_any_positive_number() {
    for n in [1usize, 2, 9, 10, 42, 100, 12345, usize::MAX / 10, usize::MAX - 1, usize::MAX] {
        assert_eq!(parse_max(&n.to_string()), Ok(n));
    }
    for n in 1usize..2000 {
        assert_eq!(parse_max(&n.to_string()), Ok(n));
    }
}

#[test]
fn max_one_past_the_largest_usize_is_refused() {
    let too_big = format!("{}0", usize::MAX);
    assert_eq!(parse_max(&too_big), Err(format!("`{too_big}` is not a whole number")));
    let just_over = (u128::from(usize::MAX as u64) + 1).to_string();
    if usize::BITS == 64 {
        assert_eq!(parse_max(&just_over), Err(format!("`{just_over}` is not a whole number")));
    }
}

#[test]
fn every_case_variant_of_a_backend_name_is_accepted() {
    for b in [Backend::SFace, Backend::ArcFace] {
        assert_eq!(parse_backend(&b.as_str().to_ascii_uppercase()), Ok(b));
    }
    assert_eq!(parse_backend("sFaCe"), Ok(Backend::SFace));
    assert_eq!(parse_backend("ARCface"), Ok(Backend::ArcFace));
}
