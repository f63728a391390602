//! Decoding and encoding of mixture documents, with the real engine.

use unifac_mixture::group::FunctionalGroupSpec;
use unifac_mixture::mixture::{
    decode_mixture, encode_mixture, Mixture, RawMixtureDoc, RawSubstance, Substance,
};

fn example_doc() -> RawMixtureDoc {
    RawMixtureDoc {
        temperature: String::from("298"),
        substances: vec![
            RawSubstance {
                name: String::from("ethanole"),
                fraction: String::from("0.5"),
                groups: vec![String::from("1:2"), String::from("2:1"), String::from("14:1")],
            },
            RawSubstance {
                name: String::from("benzene"),
                fraction: String::from("0.5"),
                groups: vec![String::from("9:6")],
            },
        ],
    }
}

/// Run the external engine on a decoded mixture and hand the coefficients
/// back as a calculated mixture.
fn run_engine(mix: &Mixture, temperature: f64) -> Mixture {
    let mut engine_subs: Vec<unifac::Substance> = Vec::new();
    for s in &mix.substances {
        let groups: Vec<unifac::FunctionalGroup> = s
            .groups
            .iter()
            .map(|g| unifac::FunctionalGroup::from(g.id, g.count.parse::<f64>().unwrap()).unwrap())
            .collect();
        engine_subs.push(unifac::Substance::from_name(
            &s.name,
            s.fraction.parse::<f64>().unwrap(),
            groups,
        ));
    }
    let calced = unifac::calc(engine_subs, temperature).unwrap();
    let substances: Vec<Substance> = mix
        .substances
        .iter()
        .zip(calced.iter())
        .map(|(s, c)| Substance {
            name: s.name.clone(),
            fraction: s.fraction.clone(),
            groups: s
                .groups
                .iter()
                .map(|g| FunctionalGroupSpec { id: g.id, count: g.count.clone() })
                .collect(),
            gamma: Some(format!("{}", c.gamma.unwrap())),
        })
        .collect();
    Mixture { temperature: mix.temperature.clone(), substances }
}

#[test]
fn parse_and_calc() {
    let yaml = "---
temperature: 298
substances:
  ethanole:
    fraction: 0.5
    groups:
      - \"1:2\"
      - \"2:1\"
      - \"14:1\"
  benzene:
    fraction: 0.5
    groups:
      - \"9:6\"
        ";
    let value: serde_yaml::Value = serde_yaml::from_str(yaml).unwrap();
    let temperature = value["temperature"].as_f64().unwrap();
    let mut substances: Vec<RawSubstance> = Vec::new();
    for (name, body) in value["substances"].as_mapping().unwrap() {
        substances.push(RawSubstance {
            name: name.as_str().unwrap().to_string(),
            fraction: format!("{}", body["fraction"].as_f64().unwrap()),
            groups: body["groups"]
                .as_sequence()
                .unwrap()
                .iter()
                .map(|g| g.as_str().unwrap().to_string())
                .collect(),
        });
    }
    let doc = RawMixtureDoc { temperature: format!("{}", temperature), substances };
    let mix = decode_mixture(&doc).unwrap();
    let calculated = run_engine(&mix, temperature);
    let res = encode_mixture(&calculated);
    assert!(res.is_ok());
}

#[test]
fn decode_example_document() {
    let doc = example_doc();
    let mix = decode_mixture(&doc).unwrap();
    assert_eq!(mix.temperature, "298");
    assert_eq!(mix.substances.len(), 2);
    assert_eq!(mix.substances[0].name, "ethanole");
    assert_eq!(mix.substances[0].fraction, "0.5");
    assert_eq!(mix.substances[0].groups.len(), 3);
    assert_eq!(mix.substances[0].groups[0].id, 1);
    assert_eq!(mix.substances[0].groups[0].count, "2");
    assert_eq!(mix.substances[0].groups[2].id, 14);
    assert!(mix.substances[0].gamma.is_none());
    assert_eq!(mix.substances[1].name, "benzene");
    assert_eq!(mix.substances[1].fraction, "0.5");
    assert_eq!(mix.substances[1].groups.len(), 1);
    assert_eq!(mix.substances[1].groups[0].id, 9);
    assert_eq!(mix.substances[1].groups[0].count, "6");
}

#[test]
fn calculated_document_carries_gammas() {
    let doc = example_doc();
    let mix = decode_mixture(&doc).unwrap();
    let calculated = run_engine(&mix, 298.0);
    let out = encode_mixture(&calculated).unwrap();
    assert_eq!(out.temperature, "298");
    assert_eq!(out.substances.len(), 2);
    for o in &out.substances {
        assert!(o.name == "ethanole" || o.name == "benzene");
        assert!(o.gamma.parse::<f64>().is_ok());
    }
}

#[test]
fn bad_group_list_fails_decode_naming_substance() {
    let doc = RawMixtureDoc {
        temperature: String::from("300"),
        substances: vec![RawSubstance {
            name: String::from("a"),
            fraction: String::from("1"),
            groups: vec![String::from("x:1")],
        }],
    };
    let e = decode_mixture(&doc).unwrap_err();
    assert_eq!(e.substance, "a");
}

#[test]
fn decode_is_all_or_nothing() {
    let mut doc = example_doc();
    doc.substances[1].groups.push(String::from("9:"));
    let e = decode_mixture(&doc).unwrap_err();
    assert_eq!(e.substance, "benzene");
}

#[test]
fn encode_decode_round_trip() {
    let doc = example_doc();
    let mix = decode_mixture(&doc).unwrap();
    let calculated = run_engine(&mix, 298.0);
    let out = encode_mixture(&calculated).unwrap();
    // feed the encoded substances back through the decoder
    let doc2 = RawMixtureDoc {
        temperature: out.temperature.clone(),
        substances: out
            .substances
            .iter()
            .map(|o| RawSubstance {
                name: o.name.clone(),
                fraction: o.fraction.clone(),
                groups: o.groups.clone(),
            })
            .collect(),
    };
    let mix2 = decode_mixture(&doc2).unwrap();
    assert_eq!(mix2.substances.len(), mix.substances.len());
    for (a, b) in mix.substances.iter().zip(mix2.substances.iter()) {
        assert_eq!(a.name, b.name);
        assert_eq!(a.fraction, b.fraction);
        assert_eq!(a.groups.len(), b.groups.len());
        for (ga, gb) in a.groups.iter().zip(b.groups.iter()) {
            assert_eq!(ga.id, gb.id);
            assert_eq!(ga.count, gb.count);
        }
    }
}

#[test]
fn encode_missing_gamma_fails() {
    let doc = example_doc();
    let mut mix = decode_mixture(&doc).unwrap();
    mix.substances[0].gamma = Some(String::from("1.2"));
    let e = encode_mixture(&mix).unwrap_err();
    assert_eq!(e.substance, "benzene");
}
