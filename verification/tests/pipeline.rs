use linfa::traits::{Fit, Predict};
use linfa::Dataset;
use linfa_bayes::MultinomialNb;
use ml_rust::dataset::check_training_set;
use ml_rust::inference::{label_name, message_counts};
use ml_rust::vectorizer::TfIdfVectorizer;
use ndarray::{Array1, Array2};

const CORPUS: [(&str, usize); 8] = [
    ("Free money now!!!", 1),
    ("FREE money offer", 1),
    ("win free money today", 1),
    ("call me later", 0),
    ("see you at lunch", 0),
    ("are we meeting today", 0),
    ("how are you", 0),
    ("lunch later today", 0),
];

fn weights(v: &TfIdfVectorizer) -> Vec<f64> {
    (0..v.vocabulary_size())
        .map(|index| {
            let (documents, holders) = v.idf_ratio(index).unwrap();
            (documents as f64 / holders as f64).ln()
        })
        .collect()
}

fn features(counts: &[Vec<usize>], idf: &[f64]) -> Array2<f32> {
    let mut data = Array2::zeros((counts.len(), idf.len()));
    for (i, row) in counts.iter().enumerate() {
        for (j, &count) in row.iter().enumerate() {
            if count > 0 {
                data[[i, j]] = (count as f32) * (idf[j] as f32);
            }
        }
    }
    data
}

fn trained() -> (TfIdfVectorizer, Vec<f64>, MultinomialNb<f32, usize>) {
    let messages: Vec<String> = CORPUS.iter().map(|(m, _)| m.to_string()).collect();
    let labels: Vec<usize> = CORPUS.iter().map(|(_, l)| *l).collect();
    let v = TfIdfVectorizer::fit(&messages);
    let idf = weights(&v);
    let x = features(&v.transform(&messages), &idf);
    let counts = check_training_set(x.nrows(), &labels).unwrap();
    assert_eq!((counts.ham, counts.spam), (5, 3));
    let model = MultinomialNb::params().fit(&Dataset::new(x, Array1::from_vec(labels))).unwrap();
    (v, idf, model)
}

fn classify(v: &TfIdfVectorizer, idf: &[f64], model: &MultinomialNb<f32, usize>, message: &str) -> String {
    let row = features(&[message_counts(v.vocabulary(), message)], idf);
    let dataset = Dataset::new(row, Array1::from_elem(1, 0usize));
    let predicted = model.predict(&dataset);
    label_name(predicted[0])
}

#[test]
fn a_message_of_spam_words_is_spam() {
    let (v, idf, model) = trained();
    assert_eq!(classify(&v, &idf, &model, "free money now"), "SPAM");
}

#[test]
fn a_message_of_ham_words_is_ham() {
    let (v, idf, model) = trained();
    assert_eq!(classify(&v, &idf, &model, "call me at lunch"), "HAM");
}

#[test]
fn an_empty_message_gets_the_class_with_the_higher_prior() {
    let (v, idf, model) = trained();
    let row = features(&[message_counts(v.vocabulary(), "")], &idf);
    assert!(row.iter().all(|&cell| cell == 0.0));
    assert_eq!(row.ncols(), v.vocabulary_size());
    assert_eq!(classify(&v, &idf, &model, ""), "HAM");
}

#[test]
fn the_same_message_gets_the_same_label() {
    let (v, idf, model) = trained();
    let first = classify(&v, &idf, &model, "win money today");
    for _ in 0..20 {
        assert_eq!(classify(&v, &idf, &model, "win money today"), first);
    }
}
