use std::collections::VecDeque;

use weather_station::clock::MonotonicTime;
use weather_station::manager_w1::W1Therm;

/// The rule of the sensor in floating point, degrees and seconds.
struct FloatingSensor {
    ma: usize,
    threshold: f64,
    readings: VecDeque<f64>,
    last_reading: f64,
    last_report: f64,
}

fn to_one_decimal(input: f64) -> f64 {
    (input * 10.0).round() / 10.0
}

impl FloatingSensor {
    fn new(ma: usize, threshold: f64) -> FloatingSensor {
        FloatingSensor {
            ma: if ma == 0 { 1 } else { ma },
            threshold,
            readings: VecDeque::new(),
            last_reading: 0.0,
            last_report: 0.0,
        }
    }

    fn measure(&mut self, code: i64, now: f64) -> Option<f64> {
        self.readings.push_back(to_one_decimal(code as f64 / 1000.0));
        if self.readings.len() < self.ma {
            return None;
        }
        if self.readings.len() > self.ma {
            self.readings.pop_front();
        }
        let temp = to_one_decimal(self.readings.iter().sum::<f64>() / self.ma as f64);
        if now - self.last_report >= 300.0 || (self.last_reading - temp).abs() >= self.threshold {
            self.last_report = now;
            self.last_reading = temp;
            Some(temp)
        } else {
            None
        }
    }
}

/// A small generator of numbers that look random.
struct Numbers(u64);

impl Numbers {
    fn next(&mut self, below: u64) -> u64 {
        self.0 = self.0.wrapping_mul(6364136223846793005).wrapping_add(1442695040888963407);
        (self.0 >> 33) % below
    }
}

/// A reading or a mean that lies half-way between two tenths: there the
/// floating-point rule depends on how the last bit falls.
fn half_way(numerator: i64, denominator: i64) -> bool {
    (2 * numerator).rem_euclid(2 * denominator) == denominator
}

#[test]
fn fixed_point_agrees_with_floating_point_away_from_ties() {
    let mut numbers = Numbers(2024);
    let mut compared = 0;
    let mut reported = 0;
    for round in 0..400 {
        let ma = numbers.next(7) as usize;
        // Thresholds between two tenths, which no change can hit exactly.
        let threshold = 50 + 100 * numbers.next(12);
        let mut fixed = W1Therm::new("s", "w1_slave", ma, threshold, MonotonicTime::from_secs(0));
        let mut floating = FloatingSensor::new(ma, threshold as f64 / 1000.0);
        let size = if ma == 0 { 1 } else { ma };
        let mut window: VecDeque<i64> = VecDeque::new();
        let mut code = numbers.next(90_000) as i64 - 30_000;
        let mut now = 0u64;
        for _ in 0..60 {
            // A walk in small steps, so that some changes stay under the threshold.
            code += numbers.next(1_201) as i64 - 600;
            now += 1 + numbers.next(if round % 2 == 0 { 90 } else { 400 });
            let mut ahead;
            loop {
                ahead = window.clone();
                ahead.push_back((code as f64 / 100.0).round() as i64);
                if ahead.len() > size {
                    ahead.pop_front();
                }
                if !half_way(code, 100) && !half_way(ahead.iter().sum(), ahead.len() as i64) {
                    break;
                }
                code += 1;
            }
            window = ahead;
            let data = format!("t={}", code);
            let (_, ours) = fixed.measure(Ok(data.as_str()), MonotonicTime::from_secs(now)).unwrap();
            let theirs = floating.measure(code, now as f64);
            assert_eq!(ours, theirs.map(|t| (t * 10.0).round() as i64), "round {}", round);
            compared += 1;
            if ours.is_some() {
                reported += 1;
            }
        }
    }
    assert!(compared > 20_000);
    assert!(reported > 2_000 && reported < compared - 2_000);
}
